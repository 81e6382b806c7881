//! Speech synthesis output: the speech marks arrive as one JSON document per
//! line; this splits them into lines.

use vstd::prelude::*;
use crate::text::{count_of, last_index_of, law_split_cuts_at_every_separator, lemma_last_index_bounds, split_on};

verus! {

/// The line-feed byte.
pub const LF: u8 = 10;

/// The carriage-return byte.
pub const CR: u8 = 13;

/// A line without the carriage return that ends it, if any.
pub open spec fn strip_cr(line: Seq<u8>) -> Seq<u8> {
    if line.len() > 0 && line.last() == CR {
        line.drop_last()
    } else {
        line
    }
}

/// The lines of a byte stream, as buffered reading yields them: the stream
/// is cut at every line feed; a line that ended with a line feed loses a
/// carriage return before it; the text after the last line feed is a line
/// only when it is not empty.
pub open spec fn read_lines(bytes: Seq<u8>) -> Seq<Seq<u8>> {
    let pieces = split_on(bytes, LF);
    let ended = pieces.drop_last().map_values(|p: Seq<u8>| strip_cr(p));
    if pieces.last().len() == 0 {
        ended
    } else {
        ended.push(pieces.last())
    }
}

/// The stream is cut into lines at its line feeds and nowhere else: there
/// is one line per line feed, plus one when bytes follow the last line feed;
/// no line holds a line feed; and a last line without a line feed is
/// exactly the bytes after the last one.
pub proof fn law_lines_cut_at_line_feeds(bytes: Seq<u8>)
    ensures
        read_lines(bytes).len() == count_of(bytes, LF) + if last_index_of(bytes, LF) + 1
            < bytes.len() {
            1nat
        } else {
            0nat
        },
        forall|i: int, j: int|
            0 <= i < read_lines(bytes).len() && 0 <= j < read_lines(bytes)[i].len()
                ==> #[trigger] read_lines(bytes)[i][j] != LF,
        last_index_of(bytes, LF) + 1 < bytes.len() ==> read_lines(bytes).last() == bytes.subrange(
            last_index_of(bytes, LF) + 1,
            bytes.len() as int,
        ),
{
    law_split_cuts_at_every_separator(bytes, LF);
    lemma_last_index_bounds(bytes, LF);
    let pieces = split_on(bytes, LF);
    let ended = pieces.drop_last().map_values(|p: Seq<u8>| strip_cr(p));
    let lines = read_lines(bytes);
    assert(pieces.last().len() == bytes.len() - (last_index_of(bytes, LF) + 1));
    assert forall|i: int, j: int|
        0 <= i < lines.len() && 0 <= j < lines[i].len() implies #[trigger] lines[i][j] != LF by {
        if i < ended.len() {
            assert(lines[i] == strip_cr(pieces[i]));
            assert(strip_cr(pieces[i])[j] == pieces[i][j]);
        } else {
            assert(lines[i] == pieces.last());
            assert(pieces.last() == pieces[pieces.len() - 1]);
        }
    }
}

/// A copy of `bytes[from..to]`.
fn copy_range(bytes: &Vec<u8>, from: usize, to: usize) -> (out: Vec<u8>)
    requires
        from <= to <= bytes@.len(),
    ensures
        out@ == bytes@.subrange(from as int, to as int),
{
    let mut out: Vec<u8> = Vec::with_capacity(to - from);
    let mut j: usize = from;
    while j < to
        invariant
            from <= j <= to <= bytes@.len(),
            out@ == bytes@.subrange(from as int, j as int),
        decreases to - j,
    {
        out.push(bytes[j]);
        j = j + 1;
        assert(out@ =~= bytes@.subrange(from as int, j as int));
    }
    out
}

/// A copy of `bytes[from..to]` without a carriage return at its end.
fn copy_line(bytes: &Vec<u8>, from: usize, to: usize) -> (out: Vec<u8>)
    requires
        from <= to <= bytes@.len(),
    ensures
        out@ == strip_cr(bytes@.subrange(from as int, to as int)),
{
    if to > from && bytes[to - 1] == CR {
        let out = copy_range(bytes, from, to - 1);
        assert(bytes@.subrange(from as int, to as int).drop_last() =~= bytes@.subrange(
            from as int,
            to - 1,
        ));
        out
    } else {
        copy_range(bytes, from, to)
    }
}

/// Splits a byte stream into its lines, as buffered reading does.
pub fn speech_mark_lines(bytes: &Vec<u8>) -> (lines: Vec<Vec<u8>>)
    ensures
        lines@.map_values(|l: Vec<u8>| l@) == read_lines(bytes@),
{
    let n: usize = bytes.len();
    let mut lines: Vec<Vec<u8>> = Vec::new();
    let mut start: usize = 0;
    let mut i: usize = 0;
    while i < n
        invariant
            n == bytes@.len(),
            start <= i <= n,
            start == last_index_of(bytes@.subrange(0, i as int), LF) + 1,
            lines@.map_values(|l: Vec<u8>| l@) == (if start == 0 {
                Seq::<Seq<u8>>::empty()
            } else {
                split_on(bytes@.subrange(0, start - 1), LF).map_values(|p: Seq<u8>| strip_cr(p))
            }),
        decreases n - i,
    {
        let ghost prefix = bytes@.subrange(0, i as int);
        let ghost next = bytes@.subrange(0, i + 1);
        assert(next.drop_last() =~= prefix);
        assert(next.last() == bytes@[i as int]);
        if bytes[i] == LF {
            let ghost old_lines = lines@.map_values(|l: Vec<u8>| l@);
            let line = copy_line(bytes, start, i);
            lines.push(line);
            proof {
                lemma_last_index_bounds(prefix, LF);
                assert(last_index_of(next, LF) == i);
                assert(next.subrange(0, i as int) =~= prefix);
                let j = last_index_of(prefix, LF);
                let piece = bytes@.subrange(start as int, i as int);
                if j < 0 {
                    assert(split_on(prefix, LF) == seq![prefix]);
                    assert(prefix =~= piece);
                    assert(split_on(prefix, LF).map_values(|p: Seq<u8>| strip_cr(p)) =~= seq![
                        strip_cr(piece),
                    ]);
                } else {
                    assert(prefix.subrange(0, j) =~= bytes@.subrange(0, start - 1));
                    assert(prefix.subrange(j + 1, prefix.len() as int) =~= piece);
                    assert(split_on(prefix, LF) == split_on(bytes@.subrange(0, start - 1), LF).push(
                        piece,
                    ));
                    assert(split_on(prefix, LF).map_values(|p: Seq<u8>| strip_cr(p)) =~= split_on(
                        bytes@.subrange(0, start - 1),
                        LF,
                    ).map_values(|p: Seq<u8>| strip_cr(p)).push(strip_cr(piece)));
                }
                assert(lines@.map_values(|l: Vec<u8>| l@) =~= old_lines.push(strip_cr(piece)));
            }
            start = i + 1;
        }
        i = i + 1;
    }
    proof {
        let whole = bytes@.subrange(0, n as int);
        assert(whole =~= bytes@);
        lemma_last_index_bounds(whole, LF);
        let j = last_index_of(whole, LF);
        let pieces = split_on(bytes@, LF);
        let last = bytes@.subrange(start as int, n as int);
        if j >= 0 {
            assert(whole.subrange(0, j) =~= bytes@.subrange(0, start - 1));
            assert(whole.subrange(j + 1, whole.len() as int) =~= last);
            assert(pieces == split_on(bytes@.subrange(0, start - 1), LF).push(last));
            assert(pieces.drop_last() =~= split_on(bytes@.subrange(0, start - 1), LF));
        } else {
            assert(last =~= bytes@);
            assert(pieces == seq![bytes@]);
            assert(pieces.drop_last() =~= Seq::<Seq<u8>>::empty());
            assert(pieces.drop_last().map_values(|p: Seq<u8>| strip_cr(p)) =~= Seq::<
                Seq<u8>,
            >::empty());
        }
        assert(pieces.last() == last);
    }
    if start < n {
        let ghost old_lines = lines@.map_values(|l: Vec<u8>| l@);
        let line = copy_range(bytes, start, n);
        lines.push(line);
        assert(lines@.map_values(|l: Vec<u8>| l@) =~= old_lines.push(
            bytes@.subrange(start as int, n as int),
        ));
    }
    lines
}

} // verus!
