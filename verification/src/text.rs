//! Text helpers: trimming, and the comma-separated lists that lessons are
//! stored with.

use vstd::prelude::*;

verus! {

/// Whether a character has the Unicode property White_Space.
pub open spec fn is_white_space(c: char) -> bool {
    let u = c as int;
    ||| 0x9 <= u <= 0xD
    ||| u == 0x20 || u == 0x85 || u == 0xA0 || u == 0x1680
    ||| 0x2000 <= u <= 0x200A
    ||| u == 0x2028 || u == 0x2029 || u == 0x202F || u == 0x205F || u == 0x3000
}

/// The number of white-space characters that a text starts with.
pub open spec fn leading_white(s: Seq<char>) -> nat
    decreases s.len(),
{
    if s.len() > 0 && is_white_space(s[0]) {
        1 + leading_white(s.drop_first())
    } else {
        0
    }
}

/// The number of white-space characters that a text ends with.
pub open spec fn trailing_white(s: Seq<char>) -> nat
    decreases s.len(),
{
    if s.len() > 0 && is_white_space(s.last()) {
        1 + trailing_white(s.drop_last())
    } else {
        0
    }
}

/// What `str::trim` leaves of a text: the text without its leading and
/// trailing white space.
pub open spec fn trimmed(s: Seq<char>) -> Seq<char> {
    let rest = s.skip(leading_white(s) as int);
    rest.take(rest.len() - trailing_white(rest))
}

/// `str::trim` from std, which its documentation describes as removing the
/// leading and trailing characters with the Unicode property White_Space.
/// Claims: the result is `trimmed` of the input.
#[verifier::external_body]
pub(crate) fn str_trim<'a>(s: &'a str) -> (t: &'a str)
    ensures
        t@ == trimmed(s@),
{
    s.trim()
}

/// A copy of the text with leading and trailing white space removed.
pub fn trim_to_string(s: &str) -> (t: String)
    ensures
        t@ == trimmed(s@),
{
    str_trim(s).to_owned()
}

/// The items of `list` joined into one text, with `sep` between neighbours.
pub open spec fn joined(list: Seq<Seq<char>>, sep: char) -> Seq<char>
    decreases list.len(),
{
    if list.len() == 0 {
        Seq::empty()
    } else if list.len() == 1 {
        list[0]
    } else {
        joined(list.drop_last(), sep).push(sep) + list.last()
    }
}

/// The index of the last `sep` in `s`, or -1 when there is none.
pub open spec fn last_index_of<T>(s: Seq<T>, sep: T) -> int
    decreases s.len(),
{
    if s.len() == 0 {
        -1
    } else if s.last() == sep {
        s.len() - 1
    } else {
        last_index_of(s.drop_last(), sep)
    }
}

/// The pieces of `s` between occurrences of `sep`, in order; a sequence
/// without `sep` is one piece (the empty sequence too).
pub open spec fn split_on<T>(s: Seq<T>, sep: T) -> Seq<Seq<T>>
    decreases s.len(),
{
    let i = last_index_of(s, sep);
    if i < 0 {
        seq![s]
    } else {
        proof {
            lemma_last_index_bounds(s, sep);
        }
        split_on(s.subrange(0, i), sep).push(s.subrange(i + 1, s.len() as int))
    }
}

/// Where the last separator of a text can be.
pub proof fn lemma_last_index_bounds<T>(s: Seq<T>, sep: T)
    ensures
        -1 <= last_index_of(s, sep) < s.len(),
        last_index_of(s, sep) >= 0 ==> s[last_index_of(s, sep)] == sep,
        forall|k: int| last_index_of(s, sep) < k < s.len() ==> s[k] != sep,
    decreases s.len(),
{
    if s.len() > 0 && s.last() != sep {
        lemma_last_index_bounds(s.drop_last(), sep);
        assert forall|k: int| last_index_of(s, sep) < k < s.len() implies s[k] != sep by {
            if k < s.len() - 1 {
                assert(s.drop_last()[k] == s[k]);
            }
        }
    }
}

proof fn lemma_last_index_after(a: Seq<char>, sep: char, b: Seq<char>)
    requires
        !b.contains(sep),
    ensures
        last_index_of(a.push(sep) + b, sep) == a.len(),
    decreases b.len(),
{
    let s = a.push(sep) + b;
    if b.len() == 0 {
        assert(s =~= a.push(sep));
    } else {
        assert(b.last() == b[b.len() - 1]);
        assert(s.last() == b.last());
        assert(s.drop_last() =~= a.push(sep) + b.drop_last());
        assert(!b.drop_last().contains(sep)) by {
            if b.drop_last().contains(sep) {
                let k = choose|k: int| 0 <= k < b.drop_last().len() && b.drop_last()[k] == sep;
                assert(b[k] == sep);
            }
        }
        lemma_last_index_after(a, sep, b.drop_last());
    }
}

proof fn lemma_no_sep_single_piece(s: Seq<char>, sep: char)
    requires
        !s.contains(sep),
    ensures
        split_on(s, sep) == seq![s],
{
    lemma_last_index_bounds(s, sep);
    if last_index_of(s, sep) >= 0 {
        assert(s.contains(sep));
    }
}

/// How many times `x` occurs in `s`.
pub open spec fn count_of<T>(s: Seq<T>, x: T) -> nat
    decreases s.len(),
{
    if s.len() == 0 {
        0
    } else {
        count_of(s.drop_last(), x) + if s.last() == x {
            1nat
        } else {
            0nat
        }
    }
}

proof fn lemma_count_up_to<T>(s: Seq<T>, x: T, i: int)
    requires
        -1 <= i < s.len(),
        forall|k: int| i < k < s.len() ==> s[k] != x,
    ensures
        count_of(s, x) == count_of(s.subrange(0, i + 1), x),
    decreases s.len(),
{
    if s.len() - 1 == i {
        assert(s.subrange(0, i + 1) =~= s);
    } else {
        assert(s.last() == s[s.len() - 1]);
        lemma_count_up_to(s.drop_last(), x, i);
        assert(s.drop_last().subrange(0, i + 1) =~= s.subrange(0, i + 1));
    }
}

/// Splitting cuts at every separator and nowhere else: there is one piece
/// more than there are separators, no piece holds a separator, and the
/// last piece is what follows the last separator (the whole sequence when
/// there is none).
pub proof fn law_split_cuts_at_every_separator<T>(s: Seq<T>, sep: T)
    ensures
        split_on(s, sep).len() == count_of(s, sep) + 1,
        forall|i: int, j: int|
            0 <= i < split_on(s, sep).len() && 0 <= j < split_on(s, sep)[i].len() ==> #[trigger] split_on(
                s,
                sep,
            )[i][j] != sep,
        split_on(s, sep).last() == s.subrange(last_index_of(s, sep) + 1, s.len() as int),
    decreases s.len(),
{
    lemma_last_index_bounds(s, sep);
    let i = last_index_of(s, sep);
    let pieces = split_on(s, sep);
    if i < 0 {
        lemma_count_up_to(s, sep, -1);
        assert(s.subrange(0, 0) =~= Seq::<T>::empty());
        assert(s.subrange(0, s.len() as int) =~= s);
    } else {
        let front = s.subrange(0, i);
        let tail = s.subrange(i + 1, s.len() as int);
        law_split_cuts_at_every_separator(front, sep);
        lemma_count_up_to(s, sep, i);
        assert(s.subrange(0, i + 1).drop_last() =~= front);
        assert(pieces == split_on(front, sep).push(tail));
        assert forall|a: int, b: int|
            0 <= a < pieces.len() && 0 <= b < pieces[a].len() implies #[trigger] pieces[a][b]
            != sep by {
            if a < pieces.len() - 1 {
                assert(pieces[a] == split_on(front, sep)[a]);
            } else {
                assert(pieces[a] == tail);
                assert(tail[b] == s[i + 1 + b]);
            }
        }
    }
}

/// Splitting a joined list at its separator gives the list back, when the
/// list is not empty and no item holds the separator.
pub proof fn law_split_after_join(list: Seq<Seq<char>>, sep: char)
    requires
        list.len() > 0,
        forall|i: int| 0 <= i < list.len() ==> !(#[trigger] list[i]).contains(sep),
    ensures
        split_on(joined(list, sep), sep) == list,
    decreases list.len(),
{
    if list.len() == 1 {
        lemma_no_sep_single_piece(list[0], sep);
        assert(seq![list[0]] =~= list);
    } else {
        let init = list.drop_last();
        let a = joined(init, sep);
        let b = list.last();
        assert(!b.contains(sep)) by {
            assert(b == list[list.len() - 1]);
        }
        let s = a.push(sep) + b;
        assert(joined(list, sep) == s);
        lemma_last_index_after(a, sep, b);
        assert(s.subrange(0, a.len() as int) =~= a);
        assert(s.subrange(a.len() as int + 1, s.len() as int) =~= b);
        assert forall|i: int| 0 <= i < init.len() implies !(#[trigger] init[i]).contains(sep) by {
            assert(init[i] == list[i]);
        }
        law_split_after_join(init, sep);
        assert(init.push(b) =~= list);
    }
}

/// Joins texts with a comma between neighbours.
pub fn join_with_comma(list: &Vec<String>) -> (text: String)
    ensures
        text@ == joined(list@.map_values(|x: String| x@), ','),
{
    let ghost views = list@.map_values(|x: String| x@);
    let mut text = String::new();
    let mut i: usize = 0;
    proof {
        reveal_strlit(",");
    }
    while i < list.len()
        invariant
            i <= list@.len(),
            views == list@.map_values(|x: String| x@),
            ","@ == seq![','],
            text@ == joined(views.subrange(0, i as int), ','),
        decreases list@.len() - i,
    {
        let ghost prefix = views.subrange(0, i as int);
        let ghost next = views.subrange(0, i + 1);
        assert(next.drop_last() =~= prefix);
        assert(next.last() == list@[i as int]@);
        if i > 0 {
            text.append(",");
            text.append(list[i].as_str());
            assert(text@ =~= joined(prefix, ',').push(',') + list@[i as int]@);
        } else {
            text.append(list[i].as_str());
            assert(text@ =~= list@[i as int]@);
        }
        i = i + 1;
    }
    assert(views.subrange(0, list@.len() as int) =~= views);
    text
}

/// Splits a text at every comma.
pub fn split_at_commas(text: &str) -> (pieces: Vec<String>)
    ensures
        pieces@.map_values(|x: String| x@) == split_on(text@, ','),
{
    let n: usize = text.unicode_len();
    let mut pieces: Vec<String> = Vec::new();
    let mut start: usize = 0;
    let mut i: usize = 0;
    while i < n
        invariant
            n == text@.len(),
            start <= i <= n,
            start == last_index_of(text@.subrange(0, i as int), ',') + 1,
            pieces@.map_values(|x: String| x@) == (if start == 0 {
                Seq::<Seq<char>>::empty()
            } else {
                split_on(text@.subrange(0, start - 1), ',')
            }),
        decreases n - i,
    {
        let c = text.get_char(i);
        let ghost prefix = text@.subrange(0, i as int);
        let ghost next = text@.subrange(0, i + 1);
        assert(next.drop_last() =~= prefix);
        assert(next.last() == c);
        if c == ',' {
            let piece = text.substring_char(start, i);
            let ghost old_pieces = pieces@.map_values(|x: String| x@);
            pieces.push(String::from_str(piece));
            proof {
                lemma_last_index_bounds(prefix, ',');
                assert(last_index_of(next, ',') == i);
                assert(next.subrange(0, i as int) =~= prefix);
                let j = last_index_of(prefix, ',');
                if j < 0 {
                    assert(split_on(prefix, ',') == seq![prefix]);
                    assert(prefix =~= text@.subrange(start as int, i as int));
                } else {
                    assert(prefix.subrange(0, j) =~= text@.subrange(0, start - 1));
                    assert(prefix.subrange(j + 1, prefix.len() as int) =~= text@.subrange(
                        start as int,
                        i as int,
                    ));
                }
                assert(pieces@.map_values(|x: String| x@) =~= old_pieces.push(
                    text@.subrange(start as int, i as int),
                ));
                assert(split_on(next, ',') == split_on(prefix, ',').push(
                    next.subrange(i + 1, next.len() as int),
                ));
            }
            start = i + 1;
        }
        i = i + 1;
    }
    let last = text.substring_char(start, n);
    let ghost old_pieces = pieces@.map_values(|x: String| x@);
    pieces.push(String::from_str(last));
    proof {
        let whole = text@.subrange(0, n as int);
        assert(whole =~= text@);
        let j = last_index_of(whole, ',');
        lemma_last_index_bounds(whole, ',');
        if j >= 0 {
            assert(whole.subrange(0, j) =~= text@.subrange(0, start - 1));
            assert(whole.subrange(j + 1, whole.len() as int) =~= text@.subrange(
                start as int,
                n as int,
            ));
        } else {
            assert(text@.subrange(start as int, n as int) =~= text@);
        }
        assert(pieces@.map_values(|x: String| x@) =~= old_pieces.push(
            text@.subrange(start as int, n as int),
        ));
    }
    pieces
}

} // verus!
