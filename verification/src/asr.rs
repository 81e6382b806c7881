//! Speech recognition: audio frame encoding and transcript events.

use vstd::prelude::*;
use crate::whisper::Output;

verus! {

/// The little-endian byte sequence of a sequence of 16-bit PCM samples:
/// each sample contributes its low byte, then its high byte.
pub open spec fn le_bytes_of(samples: Seq<i16>) -> Seq<u8> {
    Seq::new(
        (2 * samples.len()) as nat,
        |k: int|
            if k % 2 == 0 {
                samples[k / 2] as u8
            } else {
                (samples[k / 2] >> 8u32) as u8
            },
    )
}

/// Each sample becomes two bytes, low byte first: the second byte of a pair
/// times 256 plus the first gives the sample's 16 bits back.
pub proof fn law_low_byte_first(samples: Seq<i16>)
    ensures
        le_bytes_of(samples).len() == 2 * samples.len(),
        forall|i: int|
            0 <= i < samples.len() ==> 256 * (le_bytes_of(samples)[2 * i + 1] as int) + (
            le_bytes_of(samples)[2 * i] as int) == #[trigger] (samples[i] as u16) as int,
{
    assert forall|i: int| 0 <= i < samples.len() implies 256 * (le_bytes_of(samples)[2 * i
        + 1] as int) + (le_bytes_of(samples)[2 * i] as int) == #[trigger] (
    samples[i] as u16) as int by {
        let x = samples[i];
        assert((2 * i) % 2 == 0 && (2 * i) / 2 == i);
        assert((2 * i + 1) % 2 == 1 && (2 * i + 1) / 2 == i);
        assert(256 * (((x >> 8u32) as u8) as u16) + ((x as u8) as u16) == x as u16) by (bit_vector);
    }
}

/// Encodes PCM samples as little-endian bytes, two per sample.
pub fn slice_i16_to_u8(slice: &[i16]) -> (bytes: Vec<u8>)
    requires
        2 * slice@.len() <= usize::MAX,
    ensures
        bytes@ == le_bytes_of(slice@),
{
    let mut bytes: Vec<u8> = Vec::with_capacity(2 * slice.len());
    let mut i: usize = 0;
    while i < slice.len()
        invariant
            i <= slice@.len(),
            2 * slice@.len() <= usize::MAX,
            bytes@.len() == 2 * i,
            forall|k: int| 0 <= k < 2 * i ==> #[trigger] bytes@[k] == le_bytes_of(slice@)[k],
        decreases slice@.len() - i,
    {
        let sample: i16 = slice[i];
        bytes.push(sample as u8);
        bytes.push((sample >> 8u32) as u8);
        i = i + 1;
    }
    assert(bytes@ =~= le_bytes_of(slice@));
    bytes
}

/// A transcript event, as a value.
pub struct EventView {
    pub transcript: Seq<char>,
    pub is_final: bool,
}

/// A piece of transcript of the speaker: final, or a partial guess that later
/// events revise.
#[derive(Debug, Clone)]
pub struct Event {
    pub transcript: String,
    pub is_final: bool,
}

impl View for Event {
    type V = EventView;

    open spec fn view(&self) -> EventView {
        EventView { transcript: self.transcript@, is_final: self.is_final }
    }
}

/// One alternative reading of a transcription result.
pub struct TranscriptAlternative {
    pub transcript: Option<String>,
}

/// One result of the streaming transcription service.
pub struct TranscriptResult {
    pub alternatives: Option<Vec<TranscriptAlternative>>,
    pub is_partial: bool,
}

/// The transcript carried by a transcript event.
pub struct Transcript {
    pub results: Option<Vec<TranscriptResult>>,
}

/// An item of the transcription service's result stream.
pub enum TranscriptStreamItem {
    /// A transcript event, which may carry no transcript.
    TranscriptEvent(Option<Transcript>),
    /// Any other kind of item.
    Other,
}

/// Why the transcription stream failed.
#[derive(Debug)]
pub enum StreamTranscriptionError {
    EstablishStreamError(String),
    TranscriptResultStreamError(String),
    Unknown,
}

/// The event that a transcription result gives: the text of its first
/// alternative, final unless the result is partial; none when there is no
/// alternative or the first has no text.
pub open spec fn event_of_result(r: TranscriptResult) -> Option<EventView> {
    match r.alternatives {
        Some(alts) => if alts@.len() > 0 {
            match alts@[0].transcript {
                Some(t) => Some(EventView { transcript: t@, is_final: !r.is_partial }),
                None => None,
            }
        } else {
            None
        },
        None => None,
    }
}

/// A result's event carries the text of its first alternative, the most
/// likely one, whatever the others say, and is final exactly when the
/// result is not partial; a result without alternatives, or whose first
/// alternative has no text, gives no event.
pub proof fn law_event_takes_first_alternative(r: TranscriptResult)
    ensures
        r.alternatives matches Some(alts) ==> (alts@.len() > 0 ==> (alts@[0].transcript matches Some(
            t,
        ) ==> event_of_result(r) == Some(EventView { transcript: t@, is_final: !r.is_partial }))),
        r.alternatives is None ==> event_of_result(r) is None,
        r.alternatives matches Some(alts) && (alts@.len() == 0 || alts@[0].transcript is None)
            ==> event_of_result(r) is None,
{
}

/// The events that a sequence of results gives, in order.
pub open spec fn events_of_results(rs: Seq<TranscriptResult>) -> Seq<EventView>
    decreases rs.len(),
{
    if rs.len() == 0 {
        Seq::empty()
    } else {
        let before = events_of_results(rs.drop_last());
        match event_of_result(rs.last()) {
            Some(e) => before.push(e),
            None => before,
        }
    }
}

/// Results become events in their own order: when every result has an
/// event, there is one event per result and the `i`-th event is the `i`-th
/// result's.
pub proof fn law_events_follow_results(rs: Seq<TranscriptResult>)
    requires
        forall|i: int| 0 <= i < rs.len() ==> (#[trigger] event_of_result(rs[i])) is Some,
    ensures
        events_of_results(rs).len() == rs.len(),
        forall|i: int|
            0 <= i < rs.len() ==> Some(#[trigger] events_of_results(rs)[i]) == event_of_result(
                rs[i],
            ),
    decreases rs.len(),
{
    if rs.len() > 0 {
        let init = rs.drop_last();
        assert forall|i: int| 0 <= i < init.len() implies (#[trigger] event_of_result(
            init[i],
        )) is Some by {
            assert(init[i] == rs[i]);
        }
        law_events_follow_results(init);
        assert(event_of_result(rs[rs.len() - 1]) is Some);
        assert(rs.last() == rs[rs.len() - 1]);
        assert forall|i: int| 0 <= i < rs.len() implies Some(
            #[trigger] events_of_results(rs)[i],
        ) == event_of_result(rs[i]) by {
            if i < init.len() {
                assert(init[i] == rs[i]);
            }
        }
    }
}

/// The events of a transcript event: those of its results, none when it has
/// no transcript or no results.
pub open spec fn events_of_transcript(t: Option<Transcript>) -> Seq<EventView> {
    match t {
        Some(tr) => match tr.results {
            Some(rs) => events_of_results(rs@),
            None => Seq::empty(),
        },
        None => Seq::empty(),
    }
}

/// The event of one transcription result, if it gives one.
fn event_from_result(r: &TranscriptResult) -> (e: Option<Event>)
    ensures
        match e {
            Some(ev) => event_of_result(*r) == Some(ev@),
            None => event_of_result(*r) is None,
        },
{
    match &r.alternatives {
        Some(alts) => {
            if alts.len() > 0 {
                match &alts[0].transcript {
                    Some(t) => Some(Event { transcript: t.clone(), is_final: !r.is_partial }),
                    None => None,
                }
            } else {
                None
            }
        },
        None => None,
    }
}

/// The events of a sequence of transcription results, in order.
pub fn events_from_results(results: &Vec<TranscriptResult>) -> (events: Vec<Event>)
    ensures
        events@.map_values(|e: Event| e@) == events_of_results(results@),
{
    let mut events: Vec<Event> = Vec::new();
    let mut i: usize = 0;
    while i < results.len()
        invariant
            i <= results@.len(),
            events@.map_values(|e: Event| e@) == events_of_results(results@.subrange(0, i as int)),
        decreases results@.len() - i,
    {
        let ghost prefix = results@.subrange(0, i as int);
        let e = event_from_result(&results[i]);
        assert(results@.subrange(0, i + 1).drop_last() =~= prefix);
        assert(results@.subrange(0, i + 1).last() == results@[i as int]);
        match e {
            Some(ev) => {
                events.push(ev);
            },
            None => {},
        }
        i = i + 1;
        assert(events@.map_values(|e: Event| e@) =~= events_of_results(
            results@.subrange(0, i as int),
        ));
    }
    assert(results@.subrange(0, results@.len() as int) =~= results@);
    events
}

/// The events that an item of the transcription stream gives; any item other
/// than a transcript event is an error.
pub fn transcript_events(item: &TranscriptStreamItem) -> (res: Result<Vec<Event>, StreamTranscriptionError>)
    ensures
        match item {
            TranscriptStreamItem::TranscriptEvent(t) => res matches Ok(events) && events@.map_values(
                |e: Event| e@,
            ) == events_of_transcript(*t),
            TranscriptStreamItem::Other => res matches Err(StreamTranscriptionError::Unknown),
        },
{
    match item {
        TranscriptStreamItem::TranscriptEvent(t) => match t {
            Some(tr) => match &tr.results {
                Some(rs) => Ok(events_from_results(rs)),
                None => {
                    let events: Vec<Event> = Vec::new();
                    assert(events@.map_values(|e: Event| e@) =~= Seq::<EventView>::empty());
                    Ok(events)
                },
            },
            None => {
                let events: Vec<Event> = Vec::new();
                assert(events@.map_values(|e: Event| e@) =~= Seq::<EventView>::empty());
                Ok(events)
            },
        },
        TranscriptStreamItem::Other => Err(StreamTranscriptionError::Unknown),
    }
}

impl StreamTranscriptionError {
    /// The text that describes the error.
    pub fn message(&self) -> (text: String)
        ensures
            text@ == match self {
                StreamTranscriptionError::EstablishStreamError(e) => "EstablishStreamError: "@ + e@,
                StreamTranscriptionError::TranscriptResultStreamError(e) => "TranscriptResultStreamError: "@
                    + e@,
                StreamTranscriptionError::Unknown => "Unknown"@,
            },
    {
        match self {
            StreamTranscriptionError::EstablishStreamError(e) => String::from_str(
                "EstablishStreamError: ",
            ).concat(e.as_str()),
            StreamTranscriptionError::TranscriptResultStreamError(e) => String::from_str(
                "TranscriptResultStreamError: ",
            ).concat(e.as_str()),
            StreamTranscriptionError::Unknown => String::from_str("Unknown"),
        }
    }
}

/// The event that a recognizer output gives: its segment's text, final when
/// the output is stable.
pub fn event_from_output(output: &Output) -> (e: Event)
    ensures
        match output {
            Output::Stable(s) => e@ == EventView { transcript: s.text@, is_final: true },
            Output::Unstable(s) => e@ == EventView { transcript: s.text@, is_final: false },
        },
{
    match output {
        Output::Stable(segment) => Event { transcript: segment.text.clone(), is_final: true },
        Output::Unstable(segment) => Event { transcript: segment.text.clone(), is_final: false },
    }
}

/// The events of a batch of recognizer outputs, in order.
pub fn events_from_outputs(outputs: &Vec<Output>) -> (events: Vec<Event>)
    ensures
        events@.len() == outputs@.len(),
        forall|i: int|
            0 <= i < outputs@.len() ==> (#[trigger] events@[i])@ == match outputs@[i] {
                Output::Stable(s) => EventView { transcript: s.text@, is_final: true },
                Output::Unstable(s) => EventView { transcript: s.text@, is_final: false },
            },
{
    let mut events: Vec<Event> = Vec::with_capacity(outputs.len());
    let mut i: usize = 0;
    while i < outputs.len()
        invariant
            i <= outputs@.len(),
            events@.len() == i,
            forall|j: int|
                0 <= j < i ==> (#[trigger] events@[j])@ == match outputs@[j] {
                    Output::Stable(s) => EventView { transcript: s.text@, is_final: true },
                    Output::Unstable(s) => EventView { transcript: s.text@, is_final: false },
                },
        decreases outputs@.len() - i,
    {
        events.push(event_from_output(&outputs[i]));
        i = i + 1;
    }
    events
}

/// The text to translate for a transcript event: only final events are
/// translated.
pub fn translation_source(event: &Event) -> (text: Option<String>)
    ensures
        match text {
            Some(t) => event.is_final && t@ == event.transcript@,
            None => !event.is_final,
        },
{
    if event.is_final {
        Some(event.transcript.clone())
    } else {
        None
    }
}

} // verus!
