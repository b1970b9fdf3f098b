//! Input tracking: the platform-independent interface and the JSON Lines
//! format of the raw input log, plus the reading side that turns logged
//! events into recording-relative times.
//!
//! One log line per pointer event: moves carry their position, button
//! presses and releases carry the button and the last known position.
//! Numbers arrive already rendered as text by the platform listener.

use vstd::prelude::*;
use vstd::string::*;
use crate::text::{decimal, push_decimal, push_char, str_eq};
use crate::zoom::InputEventKind;
use crate::export::texts;

verus! {

/// An I/O error of the standard library, carried through unexamined.
#[verifier::external_type_specification]
#[verifier::external_body]
pub struct ExIoError(std::io::Error);

/// The text of an I/O error (`Display` of `std::io::Error`); it comes from
/// the operating system, so nothing is stated about it.
#[verifier::external_body]
pub(crate) fn io_error_text(e: &std::io::Error) -> String {
    e.to_string()
}

#[derive(Debug)]
pub enum InputTrackerError {
    Io(std::io::Error),
}

impl InputTrackerError {
    /// The user-facing text of this error: a fixed explanation followed by
    /// the text of the underlying I/O error.
    pub fn message(&self) -> (text: String)
        ensures
            text@.len() >= "no se pudo crear el archivo de log de input: "@.len(),
            text@.subrange(0, "no se pudo crear el archivo de log de input: "@.len() as int)
                == "no se pudo crear el archivo de log de input: "@,
    {
        match self {
            InputTrackerError::Io(e) => {
                let mut t = "no se pudo crear el archivo de log de input: ".to_owned();
                let ghost prefix = t@;
                let detail = io_error_text(e);
                t.append(detail.as_str());
                assert(t@.subrange(0, prefix.len() as int) =~= prefix);
                t
            },
        }
    }
}

/// Platform abstraction for logging global pointer events to a JSON Lines
/// file, stamped with wall-clock milliseconds.
pub trait InputSource {
    type Handle: InputRecordingHandle;

    fn start_logging(&self, output_path: &std::path::Path) -> Result<Self::Handle, InputTrackerError>;
}

pub trait InputRecordingHandle {
    fn stop(self) -> Result<(), InputTrackerError>;
}

/// A pointer event as seen by the platform listener, with its numbers
/// already rendered as text.
#[derive(Debug, Clone)]
pub enum TrackedInput {
    /// The pointer moved to (`x`, `y`).
    MouseMove { x: String, y: String },
    /// A button went down; the text names the button.
    ButtonPress(String),
    /// A button went up; the text names the button.
    ButtonRelease(String),
    /// Any other event (wheel, keyboard); it is not logged.
    Other,
}

/// One character of a JSON string body, escaped: backslash and double quote
/// get a backslash in front.
pub open spec fn escaped_char(c: char) -> Seq<char> {
    if c == '\\' {
        seq!['\\', '\\']
    } else if c == '"' {
        seq!['\\', '"']
    } else {
        seq![c]
    }
}

pub open spec fn escaped(s: Seq<char>) -> Seq<char>
    decreases s.len(),
{
    if s.len() == 0 {
        Seq::empty()
    } else {
        escaped(s.drop_last()) + escaped_char(s.last())
    }
}

/// Escapes backslashes and double quotes for a JSON string body.
pub fn escape(s: &str) -> (r: String)
    ensures
        r@ == escaped(s@),
{
    let n = s.unicode_len();
    let mut r = String::new();
    let mut i: usize = 0;
    while i < n
        invariant
            n == s@.len(),
            i <= n,
            r@ == escaped(s@.subrange(0, i as int)),
        decreases n - i,
    {
        let c = s.get_char(i);
        let ghost before = r@;
        if c == '\\' {
            push_char(&mut r, '\\');
            push_char(&mut r, '\\');
        } else if c == '"' {
            push_char(&mut r, '\\');
            push_char(&mut r, '"');
        } else {
            push_char(&mut r, c);
        }
        proof {
            let sub = s@.subrange(0, i + 1);
            assert(sub.drop_last() =~= s@.subrange(0, i as int));
            assert(sub.last() == c);
            assert(r@ =~= before + escaped_char(c));
        }
        i = i + 1;
    }
    assert(s@.subrange(0, n as int) =~= s@);
    r
}

/// The `kind` field value under which the log records events of kind `k`.
pub open spec fn kind_name(k: InputEventKind) -> Seq<char> {
    match k {
        InputEventKind::Move => "move"@,
        InputEventKind::ButtonPress => "button_press"@,
        InputEventKind::ButtonRelease => "button_release"@,
    }
}

/// The kind under which `event` is logged; `None` for events that are not
/// logged.
pub open spec fn logged_kind(event: TrackedInput) -> Option<InputEventKind> {
    match event {
        TrackedInput::MouseMove { .. } => Some(InputEventKind::Move),
        TrackedInput::ButtonPress(_) => Some(InputEventKind::ButtonPress),
        TrackedInput::ButtonRelease(_) => Some(InputEventKind::ButtonRelease),
        TrackedInput::Other => None,
    }
}

/// The start of every log line, up to the opening quote of the `kind`
/// value.
pub open spec fn line_head(t_wall_ms: u128) -> Seq<char> {
    "{\"t_wall_ms\":"@ + decimal(t_wall_ms as nat) + ",\"kind\":\""@
}

/// The log line of an event, or `None` for events that are not logged.
pub open spec fn event_line(t_wall_ms: u128, event: TrackedInput, last_x: Seq<char>, last_y: Seq<char>) -> Option<
    Seq<char>,
> {
    match event {
        TrackedInput::MouseMove { x, y } => Some(
            line_head(t_wall_ms) + kind_name(InputEventKind::Move) + "\",\"x\":"@ + x@ + ",\"y\":"@ + y@
                + "}\n"@,
        ),
        TrackedInput::ButtonPress(b) => Some(
            line_head(t_wall_ms) + kind_name(InputEventKind::ButtonPress) + "\",\"button\":\""@
                + escaped(b@) + "\",\"x\":"@ + last_x + ",\"y\":"@ + last_y + "}\n"@,
        ),
        TrackedInput::ButtonRelease(b) => Some(
            line_head(t_wall_ms) + kind_name(InputEventKind::ButtonRelease) + "\",\"button\":\""@
                + escaped(b@) + "\",\"x\":"@ + last_x + ",\"y\":"@ + last_y + "}\n"@,
        ),
        TrackedInput::Other => None,
    }
}

/// Formats an event as one JSON Lines record: moves log their own
/// position, button events log the button and the last known position
/// (`last_x`, `last_y`); other events are not logged.
pub fn format_event_line(t_wall_ms: u128, event: &TrackedInput, last_x: &str, last_y: &str) -> (line: Option<
    String,
>)
    ensures
        line matches Some(l) ==> event_line(t_wall_ms, *event, last_x@, last_y@) == Some(l@),
        line is None ==> event_line(t_wall_ms, *event, last_x@, last_y@) is None,
{
    match event {
        TrackedInput::MouseMove { x, y } => {
            let mut t = "{\"t_wall_ms\":".to_owned();
            push_decimal(&mut t, t_wall_ms);
            t.append(",\"kind\":\"");
            t.append("move");
            t.append("\",\"x\":");
            t.append(x.as_str());
            t.append(",\"y\":");
            t.append(y.as_str());
            t.append("}\n");
            assert(t@ =~= event_line(t_wall_ms, *event, last_x@, last_y@)->0);
            Some(t)
        },
        TrackedInput::ButtonPress(b) => {
            let mut t = "{\"t_wall_ms\":".to_owned();
            push_decimal(&mut t, t_wall_ms);
            t.append(",\"kind\":\"");
            t.append("button_press");
            t.append("\",\"button\":\"");
            let e = escape(b.as_str());
            t.append(e.as_str());
            t.append("\",\"x\":");
            t.append(last_x);
            t.append(",\"y\":");
            t.append(last_y);
            t.append("}\n");
            assert(t@ =~= event_line(t_wall_ms, *event, last_x@, last_y@)->0);
            Some(t)
        },
        TrackedInput::ButtonRelease(b) => {
            let mut t = "{\"t_wall_ms\":".to_owned();
            push_decimal(&mut t, t_wall_ms);
            t.append(",\"kind\":\"");
            t.append("button_release");
            t.append("\",\"button\":\"");
            let e = escape(b.as_str());
            t.append(e.as_str());
            t.append("\",\"x\":");
            t.append(last_x);
            t.append(",\"y\":");
            t.append(last_y);
            t.append("}\n");
            assert(t@ =~= event_line(t_wall_ms, *event, last_x@, last_y@)->0);
            Some(t)
        },
        TrackedInput::Other => None,
    }
}

/// The kind of a logged event from its `kind` field; unknown kinds are
/// skipped by the reader.
pub open spec fn kind_named(name: Seq<char>) -> Option<InputEventKind> {
    if name == "move"@ {
        Some(InputEventKind::Move)
    } else if name == "button_press"@ {
        Some(InputEventKind::ButtonPress)
    } else if name == "button_release"@ {
        Some(InputEventKind::ButtonRelease)
    } else {
        None
    }
}

pub fn input_kind_from_name(name: &str) -> (kind: Option<InputEventKind>)
    ensures
        kind == kind_named(name@),
{
    if str_eq(name, "move") {
        Some(InputEventKind::Move)
    } else if str_eq(name, "button_press") {
        Some(InputEventKind::ButtonPress)
    } else if str_eq(name, "button_release") {
        Some(InputEventKind::ButtonRelease)
    } else {
        None
    }
}

/// What the tracker writes, the reader reads back: every logged line starts
/// with its `kind` field, and the reader takes that field's value for the
/// kind the event was logged under. Events that are not logged give no
/// line.
pub proof fn law_logged_kind_reads_back(t_wall_ms: u128, event: TrackedInput, last_x: Seq<char>, last_y: Seq<char>)
    ensures
        match logged_kind(event) {
            Some(k) => {
                &&& kind_named(kind_name(k)) == Some(k)
                &&& exists|rest: Seq<char>|
                    event_line(t_wall_ms, event, last_x, last_y) == Some(
                        line_head(t_wall_ms) + kind_name(k) + "\""@ + rest,
                    )
            },
            None => event_line(t_wall_ms, event, last_x, last_y) is None,
        },
{
    reveal_strlit("move");
    reveal_strlit("button_press");
    reveal_strlit("button_release");
    reveal_strlit("\"");
    let head = line_head(t_wall_ms);
    match event {
        TrackedInput::MouseMove { x, y } => {
            let rest = ",\"x\":"@ + x@ + ",\"y\":"@ + y@ + "}\n"@;
            reveal_strlit("\",\"x\":");
            reveal_strlit(",\"x\":");
            assert(event_line(t_wall_ms, event, last_x, last_y)->0 =~= head + kind_name(InputEventKind::Move) + "\""@ + rest);
        },
        TrackedInput::ButtonPress(b) => {
            let rest = ",\"button\":\""@ + escaped(b@) + "\",\"x\":"@ + last_x + ",\"y\":"@ + last_y + "}\n"@;
            reveal_strlit("\",\"button\":\"");
            reveal_strlit(",\"button\":\"");
            assert(event_line(t_wall_ms, event, last_x, last_y)->0 =~= head + kind_name(InputEventKind::ButtonPress) + "\""@ + rest);
        },
        TrackedInput::ButtonRelease(b) => {
            let rest = ",\"button\":\""@ + escaped(b@) + "\",\"x\":"@ + last_x + ",\"y\":"@ + last_y + "}\n"@;
            reveal_strlit("\",\"button\":\"");
            reveal_strlit(",\"button\":\"");
            assert(event_line(t_wall_ms, event, last_x, last_y)->0 =~= head + kind_name(InputEventKind::ButtonRelease) + "\""@ + rest);
        },
        TrackedInput::Other => {},
    }
}

/// Time of a logged event relative to the start of the recording: events
/// logged before the first frame count as time zero; the difference is
/// truncated to 64 bits.
pub open spec fn relative_ms(t_wall_ms: u128, recording_started_wall_ms: u128) -> u64 {
    (if t_wall_ms >= recording_started_wall_ms {
        (t_wall_ms - recording_started_wall_ms) as u128
    } else {
        0u128
    }) as u64
}

pub fn relative_t_ms(t_wall_ms: u128, recording_started_wall_ms: u128) -> (t: u64)
    ensures
        t == relative_ms(t_wall_ms, recording_started_wall_ms),
{
    t_wall_ms.saturating_sub(recording_started_wall_ms) as u64
}

/// What the reader makes of one parsed log record, from the fields it
/// found: the `kind` text, the `t_wall_ms` number, and whether numeric `x`
/// and `y` are present. Records of unknown kind are skipped (`Ok(None)`)
/// whatever else they hold; a known record without time or position is an
/// error naming the missing field.
pub open spec fn record_outcome(kind: Option<Seq<char>>, t_wall_ms: Option<u64>, has_x: bool, has_y: bool) -> Result<
    Option<(InputEventKind, u64)>,
    Seq<char>,
> {
    match kind {
        None => Ok(None),
        Some(name) => match kind_named(name) {
            None => Ok(None),
            Some(k) => match t_wall_ms {
                None => Err("evento sin t_wall_ms"@),
                Some(t) => if !has_x {
                    Err("evento sin x"@)
                } else if !has_y {
                    Err("evento sin y"@)
                } else {
                    Ok(Some((k, t)))
                },
            },
        },
    }
}

/// Classifies one parsed log record (see [`record_outcome`]).
pub fn classify_log_record(kind: Option<&str>, t_wall_ms: Option<u64>, has_x: bool, has_y: bool) -> (r: Result<
    Option<(InputEventKind, u64)>,
    String,
>)
    ensures
        match record_outcome(
            match kind {
                Some(k) => Some(k@),
                None => None,
            },
            t_wall_ms,
            has_x,
            has_y,
        ) {
            Ok(v) => r == Ok::<Option<(InputEventKind, u64)>, String>(v),
            Err(m) => r matches Err(e) && e@ == m,
        },
{
    let name = match kind {
        Some(k) => k,
        None => {
            return Ok(None);
        },
    };
    let k = match input_kind_from_name(name) {
        Some(k) => k,
        None => {
            return Ok(None);
        },
    };
    let t = match t_wall_ms {
        Some(t) => t,
        None => {
            return Err("evento sin t_wall_ms".to_owned());
        },
    };
    if !has_x {
        return Err("evento sin x".to_owned());
    }
    if !has_y {
        return Err("evento sin y".to_owned());
    }
    Ok(Some((k, t)))
}

// ---------------------------------------------------------------------------
// Reading the log back
// ---------------------------------------------------------------------------

/// What `serde_json` finds in one log line parsed as a JSON value: the
/// `kind` string, the `t_wall_ms` unsigned integer, and whether `x` and `y`
/// are numbers; or the text of the parse error.
pub uninterp spec fn json_log_fields(line: Seq<char>) -> Result<(Option<Seq<char>>, Option<u64>, bool, bool), Seq<char>>;

/// The fields of a log line that the reader looks at.
pub struct LogFields {
    pub kind: Option<String>,
    pub t_wall_ms: Option<u64>,
    pub has_x: bool,
    pub has_y: bool,
}

impl LogFields {
    /// The fields as plain values.
    pub open spec fn fields(self) -> (Option<Seq<char>>, Option<u64>, bool, bool) {
        (
            match self.kind {
                Some(s) => Some(s@),
                None => None,
            },
            self.t_wall_ms,
            self.has_x,
            self.has_y,
        )
    }
}

/// Parses one log line with `serde_json::from_str` into a
/// `serde_json::Value` and picks its fields: `kind` as a string,
/// `t_wall_ms` as a `u64`, and whether `x` and `y` are numbers (`as_f64`).
/// Claimed: the outcome is the named `json_log_fields` of the line, the
/// error being the parse error's text.
#[verifier::external_body]
pub fn parse_log_fields(line: &str) -> (r: Result<LogFields, String>)
    ensures
        r matches Ok(g) ==> (json_log_fields(line@) matches Ok(f) && g.fields() == f),
        r matches Err(e) ==> (json_log_fields(line@) matches Err(m) && e@ == m),
{
    let value: serde_json::Value = serde_json::from_str(line).map_err(|e| e.to_string())?;
    Ok(LogFields {
        kind: value["kind"].as_str().map(String::from),
        t_wall_ms: value["t_wall_ms"].as_u64(),
        has_x: value["x"].as_f64().is_some(),
        has_y: value["y"].as_f64().is_some(),
    })
}

/// What the reader makes of one (trimmed, non-blank) log line: a parse
/// error, a skipped record, or the kind and recording-relative time of an
/// event.
pub open spec fn line_outcome(line: Seq<char>, started: u128) -> Result<Option<(InputEventKind, u64)>, Seq<char>> {
    match json_log_fields(line) {
        Err(m) => Err(m),
        Ok(f) => match record_outcome(f.0, f.1, f.2, f.3) {
            Err(m) => Err(m),
            Ok(None) => Ok(None),
            Ok(Some((k, t))) => Ok(Some((k, relative_ms(t as u128, started)))),
        },
    }
}

/// Reads one log line: parses it, classifies the record, and makes its
/// time relative to the start of the recording.
pub fn read_log_line(line: &str, recording_started_wall_ms: u128) -> (r: Result<Option<(InputEventKind, u64)>, String>)
    ensures
        line_outcome(line@, recording_started_wall_ms) matches Ok(v) ==> r == Ok::<
            Option<(InputEventKind, u64)>,
            String,
        >(v),
        line_outcome(line@, recording_started_wall_ms) matches Err(m) ==> (r matches Err(e) && e@ == m),
{
    let fields = match parse_log_fields(line) {
        Ok(f) => f,
        Err(e) => {
            return Err(e);
        },
    };
    let kind_text: Option<&str> = match &fields.kind {
        Some(k) => Some(k.as_str()),
        None => None,
    };
    match classify_log_record(kind_text, fields.t_wall_ms, fields.has_x, fields.has_y) {
        Err(e) => Err(e),
        Ok(None) => Ok(None),
        Ok(Some((k, t))) => Ok(Some((k, relative_t_ms(t as u128, recording_started_wall_ms)))),
    }
}

/// White space as `char::is_whitespace` and `str::trim` define it: the
/// Unicode `White_Space` property.
pub open spec fn is_white_space(c: char) -> bool {
    let v = c as u32;
    ||| 0x09 <= v <= 0x0d
    ||| v == 0x20
    ||| v == 0x85
    ||| v == 0xa0
    ||| v == 0x1680
    ||| 0x2000 <= v <= 0x200a
    ||| v == 0x2028
    ||| v == 0x2029
    ||| v == 0x202f
    ||| v == 0x205f
    ||| v == 0x3000
}

fn white_space(c: char) -> (b: bool)
    ensures
        b == is_white_space(c),
{
    let v = c as u32;
    (0x09 <= v && v <= 0x0d) || v == 0x20 || v == 0x85 || v == 0xa0 || v == 0x1680 || (0x2000 <= v && v <= 0x200a)
        || v == 0x2028 || v == 0x2029 || v == 0x202f || v == 0x205f || v == 0x3000
}

/// `s` without its leading white space.
pub open spec fn trim_start(s: Seq<char>) -> Seq<char>
    decreases s.len(),
{
    if s.len() > 0 && is_white_space(s[0]) {
        trim_start(s.drop_first())
    } else {
        s
    }
}

/// `s` without its trailing white space.
pub open spec fn trim_end(s: Seq<char>) -> Seq<char>
    decreases s.len(),
{
    if s.len() > 0 && is_white_space(s.last()) {
        trim_end(s.drop_last())
    } else {
        s
    }
}

/// `s` without leading and trailing white space (`str::trim`).
pub open spec fn trimmed(s: Seq<char>) -> Seq<char> {
    trim_end(trim_start(s))
}

proof fn lemma_trim_start_from(s: Seq<char>, a: int)
    requires
        0 <= a <= s.len(),
        forall|i: int| 0 <= i < a ==> is_white_space(#[trigger] s[i]),
    ensures
        trim_start(s) == trim_start(s.subrange(a, s.len() as int)),
    decreases a,
{
    if a > 0 {
        assert(is_white_space(s[0]));
        assert forall|i: int| 0 <= i < a - 1 implies is_white_space(#[trigger] s.drop_first()[i]) by {
            assert(s.drop_first()[i] == s[i + 1]);
        }
        lemma_trim_start_from(s.drop_first(), a - 1);
        assert(s.drop_first().subrange(a - 1, s.drop_first().len() as int) =~= s.subrange(a, s.len() as int));
    } else {
        assert(s.subrange(0, s.len() as int) =~= s);
    }
}

proof fn lemma_trim_end_to(s: Seq<char>, b: int)
    requires
        0 <= b <= s.len(),
        forall|i: int| b <= i < s.len() ==> is_white_space(#[trigger] s[i]),
    ensures
        trim_end(s) == trim_end(s.subrange(0, b)),
    decreases s.len() - b,
{
    if b < s.len() {
        assert(is_white_space(s[s.len() - 1]));
        assert forall|i: int| b <= i < s.len() - 1 implies is_white_space(#[trigger] s.drop_last()[i]) by {
            assert(s.drop_last()[i] == s[i]);
        }
        lemma_trim_end_to(s.drop_last(), b);
        assert(s.drop_last().subrange(0, b) =~= s.subrange(0, b));
    } else {
        assert(s.subrange(0, b) =~= s);
    }
}

/// Removes leading and trailing white space.
pub fn trim(s: &str) -> (r: &str)
    ensures
        r@ == trimmed(s@),
{
    let n = s.unicode_len();
    let mut a: usize = 0;
    while a < n && white_space(s.get_char(a))
        invariant
            n == s@.len(),
            a <= n,
            forall|i: int| 0 <= i < a ==> is_white_space(#[trigger] s@[i]),
        decreases n - a,
    {
        a = a + 1;
    }
    let mut b: usize = n;
    while b > a && white_space(s.get_char(b - 1))
        invariant
            n == s@.len(),
            a <= b <= n,
            forall|i: int| b <= i < n ==> is_white_space(#[trigger] s@[i]),
        decreases b,
    {
        b = b - 1;
    }
    proof {
        lemma_trim_start_from(s@, a as int);
        let rest = s@.subrange(a as int, n as int);
        assert(a == n || !is_white_space(rest[0]));
        assert(trim_start(rest) == rest);
        lemma_trim_end_to(rest, (b - a) as int);
        assert(rest.subrange(0, (b - a) as int) =~= s@.subrange(a as int, b as int));
        let kept = s@.subrange(a as int, b as int);
        assert(b == a || !is_white_space(kept.last()));
    }
    s.substring_char(a, b)
}

/// The lines of `text`: the pieces between newline characters, the last
/// one included even when empty.
pub open spec fn lines_of(text: Seq<char>) -> Seq<Seq<char>>
    decreases text.len(),
{
    if text.len() == 0 {
        seq![Seq::empty()]
    } else {
        let prev = lines_of(text.drop_last());
        if text.last() == '\n' {
            prev.push(Seq::empty())
        } else {
            prev.update(prev.len() - 1, prev.last().push(text.last()))
        }
    }
}

proof fn lemma_lines_of_len(text: Seq<char>)
    ensures
        1 <= lines_of(text).len() <= text.len() + 1,
    decreases text.len(),
{
    if text.len() > 0 {
        lemma_lines_of_len(text.drop_last());
    }
}

/// Splits `text` into its lines (see [`lines_of`]).
pub fn split_lines(text: &str) -> (lines: Vec<String>)
    ensures
        texts(lines@) == lines_of(text@),
{
    let mut lines: Vec<String> = Vec::new();
    let mut current = String::new();
    for c in it: text.chars()
        invariant
            it.seq() == text@,
            texts(lines@).push(current@) == lines_of(text@.take(it.index() as int)),
    {
        let ghost i = it.index() as int;
        proof {
            assert(text@.take(i + 1).drop_last() =~= text@.take(i));
            lemma_lines_of_len(text@.take(i));
        }
        if c == '\n' {
            let done = current;
            lines.push(done);
            current = String::new();
            assert(texts(lines@).push(current@) =~= lines_of(text@.take(i + 1)));
        } else {
            let ghost before = texts(lines@).push(current@);
            push_char(&mut current, c);
            assert(texts(lines@).push(current@) =~= before.update(before.len() - 1, before.last().push(c)));
        }
    }
    assert(text@.take(text@.len() as int) =~= text@);
    let ghost final_lines = texts(lines@).push(current@);
    lines.push(current);
    assert(texts(lines@) =~= final_lines);
    lines
}

/// One event read from the log: its line (0-based, counting every line of
/// the file), its kind, and its time relative to the start of the
/// recording.
#[derive(Debug, Clone, Copy, PartialEq, Eq, Structural)]
pub struct LogRecord {
    pub line: usize,
    pub kind: InputEventKind,
    pub t_ms: u64,
}

/// The events of the first `n` lines, in line order; blank lines and
/// records of unknown kind are skipped, and the first bad line decides the
/// error.
pub open spec fn records_upto(lines: Seq<Seq<char>>, n: int, started: u128) -> Result<Seq<LogRecord>, Seq<char>>
    decreases n,
{
    if n <= 0 {
        Ok(Seq::empty())
    } else {
        match records_upto(lines, n - 1, started) {
            Err(m) => Err(m),
            Ok(rs) => {
                let t = trimmed(lines[n - 1]);
                if t.len() == 0 {
                    Ok(rs)
                } else {
                    match line_outcome(t, started) {
                        Err(m) => Err(m),
                        Ok(None) => Ok(rs),
                        Ok(Some((k, tm))) => Ok(rs.push(LogRecord { line: (n - 1) as usize, kind: k, t_ms: tm })),
                    }
                }
            },
        }
    }
}

/// The events of a whole input log.
pub open spec fn log_records(text: Seq<char>, started: u128) -> Result<Seq<LogRecord>, Seq<char>> {
    records_upto(lines_of(text), lines_of(text).len() as int, started)
}

/// Reads a whole input log: every non-blank line, trimmed, is read as a
/// record; events come back in line order with their times relative to
/// `recording_started_wall_ms`, and the first bad line is the error.
pub fn read_log(text: &str, recording_started_wall_ms: u128) -> (r: Result<Vec<LogRecord>, String>)
    ensures
        log_records(text@, recording_started_wall_ms) matches Ok(rs) ==> (r matches Ok(v) && v@ == rs),
        log_records(text@, recording_started_wall_ms) matches Err(m) ==> (r matches Err(e) && e@ == m),
{
    let lines = split_lines(text);
    let ghost ls = lines_of(text@);
    let mut records: Vec<LogRecord> = Vec::new();
    let mut k: usize = 0;
    while k < lines.len()
        invariant
            k <= lines.len(),
            texts(lines@) == ls,
            ls == lines_of(text@),
            records_upto(ls, k as int, recording_started_wall_ms) == Ok::<Seq<LogRecord>, Seq<char>>(records@),
        decreases lines.len() - k,
    {
        assert(ls[k as int] == lines@[k as int]@);
        let line = trim(lines[k].as_str());
        if line.unicode_len() > 0 {
            match read_log_line(line, recording_started_wall_ms) {
                Err(e) => {
                    proof {
                        lemma_records_error_sticks(ls, k as int + 1, ls.len() as int, recording_started_wall_ms);
                    }
                    return Err(e);
                },
                Ok(None) => {},
                Ok(Some((kind, t_ms))) => {
                    records.push(LogRecord { line: k, kind, t_ms });
                },
            }
        }
        k = k + 1;
    }
    Ok(records)
}

proof fn lemma_records_error_sticks(lines: Seq<Seq<char>>, n: int, m: int, started: u128)
    requires
        n <= m,
        records_upto(lines, n, started) is Err,
    ensures
        records_upto(lines, m, started) == records_upto(lines, n, started),
    decreases m - n,
{
    if n < m {
        lemma_records_error_sticks(lines, n, m - 1, started);
    }
}

/// Line `j` of `lines` is blank once trimmed.
pub open spec fn blank_line(lines: Seq<Seq<char>>, j: int) -> bool {
    trimmed(lines[j]).len() == 0
}

/// What reading the first `n` lines gives, line by line: the reading fails
/// exactly when some non-blank line fails, and then with the error of the
/// first such line; otherwise every non-blank line that holds an event
/// gives one record, with that line's number, kind and time, records come
/// in line order, and no other record appears. Blank lines and records of
/// unknown kind leave the other lines' records alone.
pub proof fn law_every_event_line_gives_its_record(lines: Seq<Seq<char>>, n: int, started: u128)
    requires
        0 <= n <= lines.len(),
        n <= usize::MAX,
    ensures
        records_upto(lines, n, started) is Ok <==> (forall|j: int|
            0 <= j < n && !blank_line(lines, j) ==> !(#[trigger] line_outcome(trimmed(lines[j]), started) is Err)),
        records_upto(lines, n, started) matches Err(m) ==> exists|j: int|
            0 <= j < n && !blank_line(lines, j) && #[trigger] line_outcome(trimmed(lines[j]), started) == Err::<
                Option<(InputEventKind, u64)>,
                Seq<char>,
            >(m) && forall|i: int|
                0 <= i < j && !blank_line(lines, i) ==> !(#[trigger] line_outcome(trimmed(lines[i]), started) is Err),
        records_upto(lines, n, started) matches Ok(rs) ==> {
            &&& forall|j: int|
                0 <= j < n && !blank_line(lines, j) ==> (#[trigger] line_outcome(trimmed(lines[j]), started) matches Ok(
                    Some((k, t)),
                ) ==> rs.contains(LogRecord { line: j as usize, kind: k, t_ms: t }))
            &&& forall|i: int|
                0 <= i < rs.len() ==> 0 <= (#[trigger] rs[i]).line < n && !blank_line(lines, rs[i].line as int)
                    && line_outcome(trimmed(lines[rs[i].line as int]), started) == Ok::<
                    Option<(InputEventKind, u64)>,
                    Seq<char>,
                >(Some((rs[i].kind, rs[i].t_ms)))
            &&& forall|i: int, l: int| 0 <= i < l < rs.len() ==> (#[trigger] rs[i]).line < (#[trigger] rs[l]).line
        },
    decreases n,
{
    if n > 0 {
        law_every_event_line_gives_its_record(lines, n - 1, started);
        let last = n - 1;
        let o = line_outcome(trimmed(lines[last]), started);
        match records_upto(lines, n - 1, started) {
            Err(m) => {
                let j = choose|j: int|
                    0 <= j < n - 1 && !blank_line(lines, j) && #[trigger] line_outcome(trimmed(lines[j]), started) == Err::<
                        Option<(InputEventKind, u64)>,
                        Seq<char>,
                    >(m) && forall|i: int|
                        0 <= i < j && !blank_line(lines, i) ==> !(#[trigger] line_outcome(trimmed(lines[i]), started) is Err);
                assert(0 <= j < n && !blank_line(lines, j) && line_outcome(trimmed(lines[j]), started) == Err::<
                    Option<(InputEventKind, u64)>,
                    Seq<char>,
                >(m));
            },
            Ok(rs) => {
                if !blank_line(lines, last) {
                    match o {
                        Err(m) => {
                            assert(line_outcome(trimmed(lines[last]), started) is Err);
                        },
                        Ok(None) => {},
                        Ok(Some((k, t))) => {
                            let rs2 = rs.push(LogRecord { line: last as usize, kind: k, t_ms: t });
                            assert(records_upto(lines, n, started) == Ok::<Seq<LogRecord>, Seq<char>>(rs2));
                            assert forall|j: int|
                                0 <= j < n && !blank_line(lines, j) && #[trigger] line_outcome(trimmed(lines[j]), started)
                                    is Ok && line_outcome(trimmed(lines[j]), started)->Ok_0 is Some implies rs2.contains(
                                LogRecord {
                                    line: j as usize,
                                    kind: (line_outcome(trimmed(lines[j]), started)->Ok_0->Some_0).0,
                                    t_ms: (line_outcome(trimmed(lines[j]), started)->Ok_0->Some_0).1,
                                },
                            ) by {
                                let (k2, t2) = line_outcome(trimmed(lines[j]), started)->Ok_0->Some_0;
                                if j < n - 1 {
                                    assert(rs.contains(LogRecord { line: j as usize, kind: k2, t_ms: t2 }));
                                    let q = choose|q: int| 0 <= q < rs.len() && rs[q] == LogRecord { line: j as usize, kind: k2, t_ms: t2 };
                                    assert(rs2[q] == rs[q]);
                                } else {
                                    assert(rs2[rs.len() as int] == LogRecord { line: j as usize, kind: k2, t_ms: t2 });
                                }
                            }
                            assert forall|i: int| 0 <= i < rs2.len() implies 0 <= (#[trigger] rs2[i]).line < n && !blank_line(
                                lines,
                                rs2[i].line as int,
                            ) && line_outcome(trimmed(lines[rs2[i].line as int]), started) == Ok::<
                                Option<(InputEventKind, u64)>,
                                Seq<char>,
                            >(Some((rs2[i].kind, rs2[i].t_ms))) by {
                                if i < rs.len() {
                                    assert(rs2[i] == rs[i]);
                                }
                            }
                            assert forall|i: int, l: int| 0 <= i < l < rs2.len() implies (#[trigger] rs2[i]).line < (
                            #[trigger] rs2[l]).line by {
                                assert(rs2[i] == rs[i]);
                                if l < rs.len() {
                                    assert(rs2[l] == rs[l]);
                                }
                            }
                        },
                    }
                }
            },
        }
    }
}

/// The records of a whole log, line by line (see
/// [`law_every_event_line_gives_its_record`] over the lines of the text).
pub proof fn law_log_records_line_by_line(text: Seq<char>, started: u128)
    requires
        text.len() < usize::MAX,
    ensures
        log_records(text, started) == records_upto(lines_of(text), lines_of(text).len() as int, started),
        lines_of(text).len() <= usize::MAX,
{
    lemma_lines_of_len(text);
}

} // verus!
