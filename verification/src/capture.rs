//! Screen capture: the platform-independent interface, the metadata of a
//! finished take, and the bookkeeping around capture sources.
//!
//! The platform backend (Windows.Graphics.Capture) implements
//! [`ScreenCapturer`] and [`RecordingHandle`] outside this library.

use vstd::prelude::*;
use crate::text::{decimal, push_decimal, push_char};

verus! {

/// A file system path (`std::path::Path`), carried through unexamined.
#[verifier::external_type_specification]
#[verifier::external_body]
pub struct ExPath(std::path::Path);

#[derive(Debug, Clone, PartialEq, Eq)]
pub enum CaptureError {
    NoPrimaryMonitor(String),
    MonitorInfo(String),
    WindowInfo(String),
    StartFailed(String),
    StopFailed(String),
    NoFramesCaptured,
}

/// The user-facing text of a capture error.
pub open spec fn capture_error_text(e: CaptureError) -> Seq<char> {
    match e {
        CaptureError::NoPrimaryMonitor(m) => "no se encontro el monitor primario: "@ + m@,
        CaptureError::MonitorInfo(m) => "no se pudo leer la geometria del monitor: "@ + m@,
        CaptureError::WindowInfo(m) => "no se pudo leer/encontrar la ventana: "@ + m@,
        CaptureError::StartFailed(m) => "no se pudo iniciar la captura de pantalla: "@ + m@,
        CaptureError::StopFailed(m) => "no se pudo detener la captura de pantalla: "@ + m@,
        CaptureError::NoFramesCaptured => "la sesion de captura termino sin recibir ni un frame"@,
    }
}

impl CaptureError {
    /// The user-facing text of this error.
    pub fn message(&self) -> (text: String)
        ensures
            text@ == capture_error_text(*self),
    {
        match self {
            CaptureError::NoPrimaryMonitor(m) => {
                let mut t = "no se encontro el monitor primario: ".to_owned();
                t.append(m.as_str());
                t
            },
            CaptureError::MonitorInfo(m) => {
                let mut t = "no se pudo leer la geometria del monitor: ".to_owned();
                t.append(m.as_str());
                t
            },
            CaptureError::WindowInfo(m) => {
                let mut t = "no se pudo leer/encontrar la ventana: ".to_owned();
                t.append(m.as_str());
                t
            },
            CaptureError::StartFailed(m) => {
                let mut t = "no se pudo iniciar la captura de pantalla: ".to_owned();
                t.append(m.as_str());
                t
            },
            CaptureError::StopFailed(m) => {
                let mut t = "no se pudo detener la captura de pantalla: ".to_owned();
                t.append(m.as_str());
                t
            },
            CaptureError::NoFramesCaptured => "la sesion de captura termino sin recibir ni un frame".to_owned(),
        }
    }
}

/// Metadata of a finished raw take. Start and stop are wall-clock
/// milliseconds, the same clock as the input log.
#[derive(Debug, Clone, Copy, PartialEq, Eq, Structural)]
pub struct RawTakeInfo {
    pub width: u32,
    pub height: u32,
    pub fps: u32,
    pub recording_started_wall_ms: u128,
    pub recording_stopped_wall_ms: u128,
}

/// A monitor as offered to the source picker. `index` is 1-based and is
/// what [`CaptureSource::Monitor`] expects back.
#[derive(Debug, Clone)]
pub struct MonitorInfo {
    pub index: usize,
    pub name: String,
    pub width: u32,
    pub height: u32,
}

/// A capturable window. `index` is 1-based and only stable within one
/// listing: windows open and close between listings.
#[derive(Debug, Clone)]
pub struct WindowInfo {
    pub index: usize,
    pub title: String,
}

/// Where to capture from, using the indices of the listings.
#[derive(Debug, Clone, Copy, PartialEq, Eq, Structural)]
pub enum CaptureSource {
    PrimaryMonitor,
    Monitor(usize),
    Window(usize),
}

/// A monitor as sent to the user interface.
#[derive(Debug, Clone)]
pub struct MonitorDto {
    pub index: usize,
    pub name: String,
    pub width: u32,
    pub height: u32,
}

/// Platform abstraction for recording the screen to a file.
pub trait ScreenCapturer {
    type Handle: RecordingHandle;

    /// Lists the monitors, for the source picker.
    fn list_monitors(&self) -> Result<Vec<MonitorInfo>, CaptureError>;

    /// Lists the windows that can be captured right now.
    fn list_windows(&self) -> Result<Vec<WindowInfo>, CaptureError>;

    /// Starts recording `source` into `output_path` and returns at once with
    /// a handle to stop it later.
    fn start_recording(&self, output_path: &std::path::Path, source: CaptureSource) -> Result<Self::Handle, CaptureError>;
}

/// A recording in progress. Stopping blocks until the file is complete.
pub trait RecordingHandle {
    fn stop(self) -> Result<RawTakeInfo, CaptureError>;
}

/// The monitor at `position` (0-based) of the system listing; a monitor
/// without a readable name is called `Monitor <index>`.
pub fn monitor_info(position: usize, name: Option<String>, width: u32, height: u32) -> (m: MonitorInfo)
    requires
        position < usize::MAX,
    ensures
        m.index == position + 1,
        m.width == width,
        m.height == height,
        m.name@ == match name {
            Some(n) => n@,
            None => "Monitor "@ + decimal((position + 1) as nat),
        },
{
    let label = match name {
        Some(n) => n,
        None => {
            let mut t = "Monitor ".to_owned();
            push_decimal(&mut t, (position + 1) as u128);
            t
        },
    };
    MonitorInfo { index: position + 1, name: label, width, height }
}

/// The window at `position` (0-based) of the system listing; a window
/// without a readable title is called `Ventana <index>`.
pub fn window_info(position: usize, title: Option<String>) -> (w: WindowInfo)
    requires
        position < usize::MAX,
    ensures
        w.index == position + 1,
        w.title@ == match title {
            Some(t) => t@,
            None => "Ventana "@ + decimal((position + 1) as nat),
        },
{
    let label = match title {
        Some(t) => t,
        None => {
            let mut t = "Ventana ".to_owned();
            push_decimal(&mut t, (position + 1) as u128);
            t
        },
    };
    WindowInfo { index: position + 1, title: label }
}

/// The monitor as sent to the user interface.
pub fn monitor_dto(m: MonitorInfo) -> (d: MonitorDto)
    ensures
        d.index == m.index,
        d.name == m.name,
        d.width == m.width,
        d.height == m.height,
{
    MonitorDto { index: m.index, name: m.name, width: m.width, height: m.height }
}

/// Position in the window listing of the 1-based window `index`; indices
/// start at 1.
pub fn window_list_position(index: usize) -> (r: Result<usize, CaptureError>)
    ensures
        index < 1 ==> (r matches Err(CaptureError::WindowInfo(m)) && m@ == "el indice de ventana empieza en 1"@),
        index >= 1 ==> r == Ok::<usize, CaptureError>((index - 1) as usize),
{
    if index < 1 {
        return Err(CaptureError::WindowInfo("el indice de ventana empieza en 1".to_owned()));
    }
    Ok(index - 1)
}

/// The error for a 1-based window `index` missing from the listing.
pub fn window_not_found(index: usize) -> (e: CaptureError)
    ensures
        e matches CaptureError::WindowInfo(m) && m@ == "no se encontro la ventana con indice "@ + decimal(index as nat),
{
    let mut t = "no se encontro la ventana con indice ".to_owned();
    push_decimal(&mut t, index as u128);
    CaptureError::WindowInfo(t)
}

/// A window extent as a capture size: at least one pixel.
pub fn window_extent(v: i32) -> (e: u32)
    ensures
        e == if v >= 1 { v as int } else { 1 },
{
    if v >= 1 {
        v as u32
    } else {
        1
    }
}

/// Metadata of a take once the capture session has closed: the start is the
/// wall-clock time of the first frame (a session without frames is an
/// error), the stop defaults to the start when it was never recorded.
pub fn finish_take(
    width: u32,
    height: u32,
    fps: u32,
    first_frame_wall_ms: Option<u128>,
    stopped_wall_ms: Option<u128>,
) -> (r: Result<RawTakeInfo, CaptureError>)
    ensures
        first_frame_wall_ms is None ==> r == Err::<RawTakeInfo, CaptureError>(CaptureError::NoFramesCaptured),
        first_frame_wall_ms matches Some(started) ==> r == Ok::<RawTakeInfo, CaptureError>(
            RawTakeInfo {
                width,
                height,
                fps,
                recording_started_wall_ms: started,
                recording_stopped_wall_ms: match stopped_wall_ms {
                    Some(s) => s,
                    None => started,
                },
            },
        ),
{
    let started = match first_frame_wall_ms {
        Some(t) => t,
        None => {
            return Err(CaptureError::NoFramesCaptured);
        },
    };
    let stopped = match stopped_wall_ms {
        Some(t) => t,
        None => started,
    };
    Ok(
        RawTakeInfo {
            width,
            height,
            fps,
            recording_started_wall_ms: started,
            recording_stopped_wall_ms: stopped,
        },
    )
}

/// Length of a take in milliseconds: stop minus start, zero if the clock
/// went backwards, truncated to 64 bits.
pub fn take_duration_ms(info: &RawTakeInfo) -> (d: u64)
    ensures
        d == (if info.recording_stopped_wall_ms >= info.recording_started_wall_ms {
            (info.recording_stopped_wall_ms - info.recording_started_wall_ms) as u128
        } else {
            0u128
        }) as u64,
{
    info.recording_stopped_wall_ms.saturating_sub(info.recording_started_wall_ms) as u64
}

/// File names of a new take stamped `stamp` (wall-clock milliseconds): the
/// video and the input log.
pub fn take_file_names(stamp: u128) -> (names: (String, String))
    ensures
        names.0@ == "take_"@ + decimal(stamp as nat) + ".mp4"@,
        names.1@ == "take_"@ + decimal(stamp as nat) + ".input.jsonl"@,
{
    let mut video = "take_".to_owned();
    push_decimal(&mut video, stamp);
    video.append(".mp4");
    let mut log = "take_".to_owned();
    push_decimal(&mut log, stamp);
    log.append(".input.jsonl");
    (video, log)
}

/// The metadata file written next to a capture: a small JSON object with
/// the start and stop wall-clock times and the capture size and rate.
pub open spec fn capture_meta_text(started: u128, stopped: u128, width: u32, height: u32, fps: u32) -> Seq<char> {
    "{\n  \"recording_started_wall_ms\": "@ + decimal(started as nat)
        + ",\n  \"recording_stopped_wall_ms\": "@ + decimal(stopped as nat)
        + ",\n  \"width\": "@ + decimal(width as nat)
        + ",\n  \"height\": "@ + decimal(height as nat)
        + ",\n  \"fps\": "@ + decimal(fps as nat)
        + "\n}\n"@
}

/// Renders the capture metadata JSON (see [`capture_meta_text`]).
pub fn serde_json_meta(first_frame_wall_ms: u128, stop_wall_ms: u128, width: u32, height: u32, fps: u32) -> (text: String)
    ensures
        text@ == capture_meta_text(first_frame_wall_ms, stop_wall_ms, width, height, fps),
{
    let mut t = "{\n  \"recording_started_wall_ms\": ".to_owned();
    push_decimal(&mut t, first_frame_wall_ms);
    t.append(",\n  \"recording_stopped_wall_ms\": ");
    push_decimal(&mut t, stop_wall_ms);
    t.append(",\n  \"width\": ");
    push_decimal(&mut t, width as u128);
    t.append(",\n  \"height\": ");
    push_decimal(&mut t, height as u128);
    t.append(",\n  \"fps\": ");
    push_decimal(&mut t, fps as u128);
    t.append("\n}\n");
    assert(t@ =~= capture_meta_text(first_frame_wall_ms, stop_wall_ms, width, height, fps));
    t
}

/// The recorder holds at most one recording at a time: starting is
/// refused while one is in progress.
pub fn ensure_idle<S>(slot: &Option<S>) -> (r: Result<(), String>)
    ensures
        slot is None ==> r is Ok,
        slot is Some ==> (r matches Err(m) && m@ == "ya hay una grabacion en curso"@),
{
    match slot {
        Some(_) => Err("ya hay una grabacion en curso".to_owned()),
        None => Ok(()),
    }
}

/// Takes the recording in progress out of the recorder, which is idle
/// afterwards; stopping without a recording is refused.
pub fn take_recording<S>(slot: &mut Option<S>) -> (r: Result<S, String>)
    ensures
        *final(slot) is None,
        *old(slot) matches Some(s) ==> r == Ok::<S, String>(s),
        *old(slot) is None ==> (r matches Err(m) && m@ == "no hay ninguna grabacion en curso"@),
{
    match slot.take() {
        Some(s) => Ok(s),
        None => Err("no hay ninguna grabacion en curso".to_owned()),
    }
}

/// The capture source of the recording command: the chosen monitor, or the
/// primary monitor when none was chosen.
pub fn monitor_source(monitor_index: Option<usize>) -> (source: CaptureSource)
    ensures
        source == match monitor_index {
            Some(i) => CaptureSource::Monitor(i),
            None => CaptureSource::PrimaryMonitor,
        },
{
    match monitor_index {
        Some(i) => CaptureSource::Monitor(i),
        None => CaptureSource::PrimaryMonitor,
    }
}

} // verus!
