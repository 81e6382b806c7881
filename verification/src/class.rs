//! Lessons as the class pages see them: creation requests, stored rows,
//! listing with a teaching status, and members entering a class.

use vstd::prelude::*;
use std::fmt::Write;
use crate::text::{join_with_comma, joined, split_at_commas, split_on};

verus! {

/// The names of the languages that lessons can be given in.
pub fn supported_languages() -> (langs: Vec<String>)
    ensures
        langs@.map_values(|s: String| s@) == seq![
            "Arabic"@,
            "English"@,
            "Chinese"@,
            "Hindi"@,
            "Bangladesh"@,
            "Urdu"@,
        ],
{
    let mut langs: Vec<String> = Vec::new();
    langs.push(String::from_str("Arabic"));
    langs.push(String::from_str("English"));
    langs.push(String::from_str("Chinese"));
    langs.push(String::from_str("Hindi"));
    langs.push(String::from_str("Bangladesh"));
    langs.push(String::from_str("Urdu"));
    assert(langs@.map_values(|s: String| s@) =~= seq![
        "Arabic"@,
        "English"@,
        "Chinese"@,
        "Hindi"@,
        "Bangladesh"@,
        "Urdu"@,
    ]);
    langs
}

/// A request to create a lesson.
pub struct CreateClassReq {
    pub name: String,
    pub start_time: i64,
    pub end_time: i64,
    pub digital_human_list: Vec<String>,
    pub supported_lang: Vec<String>,
    pub teacher_code: String,
    pub student_code: Vec<String>,
}

/// The columns stored for a new lesson: its lists are kept as comma-joined
/// texts.
pub struct LessonColumns {
    pub name: String,
    pub digital_human_list: String,
    pub language_list: String,
    pub start_time: i64,
    pub end_time: i64,
}

/// The texts of a list of strings.
pub open spec fn texts(list: Seq<String>) -> Seq<Seq<char>> {
    list.map_values(|s: String| s@)
}

impl CreateClassReq {
    /// The columns to store for the requested lesson.
    pub fn lesson_columns(&self) -> (cols: LessonColumns)
        ensures
            cols.name@ == self.name@,
            cols.digital_human_list@ == joined(texts(self.digital_human_list@), ','),
            cols.language_list@ == joined(texts(self.supported_lang@), ','),
            cols.start_time == self.start_time,
            cols.end_time == self.end_time,
    {
        LessonColumns {
            name: self.name.clone(),
            digital_human_list: join_with_comma(&self.digital_human_list),
            language_list: join_with_comma(&self.supported_lang),
            start_time: self.start_time,
            end_time: self.end_time,
        }
    }
}

/// Where a lesson stands at a given time.
#[derive(Debug, Clone, Copy, PartialEq, Eq, Structural)]
pub enum LessonStatus {
    NotStarted,
    Teaching,
    Ended,
}

/// The status of a lesson from `start` to `end` at time `now`: not started
/// before its start, teaching strictly between start and end, ended
/// otherwise (at its start instant too).
pub open spec fn status_at(start: i64, end: i64, now: i64) -> LessonStatus {
    if start > now {
        LessonStatus::NotStarted
    } else if start < now && now < end {
        LessonStatus::Teaching
    } else {
        LessonStatus::Ended
    }
}

/// The status of a lesson from `start` to `end` at time `now`.
pub fn lesson_status(start: i64, end: i64, now: i64) -> (status: LessonStatus)
    ensures
        status == status_at(start, end, now),
{
    if start > now {
        LessonStatus::NotStarted
    } else if start < now && now < end {
        LessonStatus::Teaching
    } else {
        LessonStatus::Ended
    }
}

/// The label shown for a status.
pub open spec fn status_label(status: LessonStatus) -> Seq<char> {
    match status {
        LessonStatus::NotStarted => "Not Started"@,
        LessonStatus::Teaching => "Teaching"@,
        LessonStatus::Ended => "Ended"@,
    }
}

/// A lesson is not started before its start, teaching at every instant
/// strictly between its start and its end, and ended from its end on (and
/// at its very start instant, as the listing has always shown it).
pub proof fn law_status_by_time(start: i64, end: i64, now: i64)
    ensures
        now < start ==> status_at(start, end, now) == LessonStatus::NotStarted,
        start < now && now < end ==> status_at(start, end, now) == LessonStatus::Teaching,
        start <= now && end <= now ==> status_at(start, end, now) == LessonStatus::Ended,
        now == start ==> status_at(start, end, now) == LessonStatus::Ended,
{
}

impl LessonStatus {
    /// The label shown for the status.
    pub fn label(&self) -> (text: String)
        ensures
            text@ == status_label(*self),
    {
        match self {
            LessonStatus::NotStarted => String::from_str("Not Started"),
            LessonStatus::Teaching => String::from_str("Teaching"),
            LessonStatus::Ended => String::from_str("Ended"),
        }
    }
}

/// The text that the `chrono` crate gives for a millisecond timestamp
/// formatted with a strftime-style pattern, or none when the timestamp is out
/// of its range or the pattern is not one it can write.
pub uninterp spec fn chrono_formatted_time(ms: i64, pattern: Seq<char>) -> Option<Seq<char>>;

/// The pattern that lesson times are shown with: date, then time of day.
pub open spec fn lesson_time_pattern() -> Seq<char> {
    "%Y-%m-%d %H:%M:%S"@
}

/// `chrono::NaiveDateTime::from_timestamp_millis`, then `format` with the
/// pattern, written out. Claims: the result is `chrono_formatted_time` of the
/// timestamp and the pattern; which timestamps are in range, which patterns
/// are accepted and what text comes out are left to that name. A pattern
/// that chrono cannot write makes the write fail, which gives none here.
#[verifier::external_body]
fn format_time(ms: i64, pattern: &str) -> (text: Option<String>)
    ensures
        match text {
            Some(t) => chrono_formatted_time(ms, pattern@) == Some(t@),
            None => chrono_formatted_time(ms, pattern@) is None,
        },
{
    match chrono::NaiveDateTime::from_timestamp_millis(ms) {
        Some(t) => {
            let mut text = String::new();
            match write!(text, "{}", t.format(pattern)) {
                Ok(()) => Some(text),
                Err(_) => None,
            }
        },
        None => None,
    }
}

/// A stored lesson, as read back.
pub struct LessonRow {
    pub id: i64,
    pub name: String,
    pub digital_human_list: String,
    pub language_list: String,
    pub start_time: i64,
    pub end_time: i64,
    pub teacher_code: String,
    pub student_code: String,
    pub create_time: String,
}

/// A lesson as listed to users.
pub struct Lesson {
    pub id: u64,
    pub name: String,
    pub digital_human_list: Vec<String>,
    pub supported_language: Vec<String>,
    pub start_time: String,
    pub end_time: String,
    pub create_time: String,
    pub teacher_link: String,
    pub student_link: String,
    pub teacher_code: String,
    pub student_code: String,
    pub status: String,
}

impl Lesson {
    /// The listing of a stored lesson at time `now`: its lists split at the
    /// commas, its times formatted with the lesson time pattern, and its
    /// status. None when a time is out of the formatter's range.
    pub fn from_row(row: &LessonRow, now: i64) -> (lesson: Option<Lesson>)
        ensures
            match lesson {
                None => chrono_formatted_time(row.start_time, lesson_time_pattern()) is None
                    || chrono_formatted_time(row.end_time, lesson_time_pattern()) is None,
                Some(l) => {
                    &&& chrono_formatted_time(row.start_time, lesson_time_pattern()) == Some(
                        l.start_time@,
                    )
                    &&& chrono_formatted_time(row.end_time, lesson_time_pattern()) == Some(
                        l.end_time@,
                    )
                    &&& l.id == row.id as u64
                    &&& l.name@ == row.name@
                    &&& texts(l.digital_human_list@) == split_on(row.digital_human_list@, ',')
                    &&& texts(l.supported_language@) == split_on(row.language_list@, ',')
                    &&& l.create_time@ == row.create_time@
                    &&& l.teacher_code@ == row.teacher_code@
                    &&& l.student_code@ == row.student_code@
                    &&& l.teacher_link@ == Seq::<char>::empty()
                    &&& l.student_link@ == Seq::<char>::empty()
                    &&& l.status@ == status_label(status_at(row.start_time, row.end_time, now))
                },
            },
    {
        let start_time = match format_time(row.start_time, "%Y-%m-%d %H:%M:%S") {
            Some(t) => t,
            None => {
                return None;
            },
        };
        let end_time = match format_time(row.end_time, "%Y-%m-%d %H:%M:%S") {
            Some(t) => t,
            None => {
                return None;
            },
        };
        let status = lesson_status(row.start_time, row.end_time, now).label();
        Some(
            Lesson {
                id: row.id as u64,
                name: row.name.clone(),
                digital_human_list: split_at_commas(row.digital_human_list.as_str()),
                supported_language: split_at_commas(row.language_list.as_str()),
                start_time,
                end_time,
                create_time: row.create_time.clone(),
                teacher_link: String::new(),
                student_link: String::new(),
                teacher_code: row.teacher_code.clone(),
                student_code: row.student_code.clone(),
                status,
            },
        )
    }
}

/// A request to enter a class.
pub struct EnterClassReq {
    pub lesson_id: i64,
    pub is_teacher: i64,
    pub avatar_url: String,
    pub nickname: String,
    pub language: String,
}

/// Why a member could not enter a class.
#[derive(Debug, Clone, Copy, PartialEq, Eq, Structural)]
pub enum EnterClassError {
    /// The request carried no `User-Agent` header.
    UserAgentRequired,
}

impl EnterClassError {
    /// The text that describes the error.
    pub fn message(&self) -> (text: String)
        ensures
            text@ == "User-Agent required"@,
    {
        String::from_str("User-Agent required")
    }
}

/// The identifier of a member: the user agent and the remote address joined
/// by a dash. A member without a user agent cannot enter.
pub fn member_identifier(user_agent: Option<&str>, remote_addr: &str) -> (id: Result<String, EnterClassError>)
    ensures
        match user_agent {
            Some(ua) => id matches Ok(s) && s@ == ua@ + "-"@ + remote_addr@,
            None => id == Err::<String, EnterClassError>(EnterClassError::UserAgentRequired),
        },
{
    match user_agent {
        Some(ua) => Ok(String::from_str(ua).concat("-").concat(remote_addr)),
        None => Err(EnterClassError::UserAgentRequired),
    }
}

} // verus!
