//! Export: output resolutions, the timing of exported frames, the command
//! lines of the ffmpeg encoder and decoder processes, and export errors.

use vstd::prelude::*;
use crate::project::ExportResolution;
use crate::text::{decimal, push_decimal, push_char};
use crate::frame::{CompositorError, DecodeError, compositor_error_text};
use crate::input::io_error_text;

verus! {

/// Pixel size (16:9) of each supported export resolution.
pub open spec fn resolution_size(resolution: ExportResolution) -> (u32, u32) {
    match resolution {
        ExportResolution::P1080 => (1920, 1080),
        ExportResolution::P1440 => (2560, 1440),
        ExportResolution::P4k => (3840, 2160),
    }
}

pub fn resolution_pixels(resolution: ExportResolution) -> (size: (u32, u32))
    ensures
        size == resolution_size(resolution),
{
    match resolution {
        ExportResolution::P1080 => (1920, 1080),
        ExportResolution::P1440 => (2560, 1440),
        ExportResolution::P4k => (3840, 2160),
    }
}

/// Time in milliseconds of exported frame `frame_index` for a take
/// recorded at `fps` frames per second (a rate of zero counts as one).
pub fn frame_time_ms(frame_index: u64, fps: u32) -> (t: u64)
    requires
        frame_index * 1000 <= u64::MAX,
    ensures
        t == frame_index * 1000 / (if fps >= 1 { fps as int } else { 1 }),
{
    let rate: u64 = if fps >= 1 {
        fps as u64
    } else {
        1
    };
    frame_index * 1000 / rate
}

#[derive(Debug)]
pub enum ExportError {
    Spawn(std::io::Error),
    FfmpegFailed(String),
    Decode(DecodeError),
    Compositor(CompositorError),
}

impl ExportError {
    /// The user-facing text of this error. For the two errors without an
    /// operating system error inside, the text is stated in full; for the
    /// others its fixed beginning.
    pub fn message(&self) -> (text: String)
        ensures
            *self matches ExportError::FfmpegFailed(m) ==> text@ == "ffmpeg termino con error: "@ + m@,
            *self matches ExportError::Compositor(e) ==> text@ == "error en el compositor: "@ + compositor_error_text(e),
            *self matches ExportError::Spawn(_) ==> text@.len() >= "no se pudo arrancar ffmpeg para exportar: "@.len()
                && text@.subrange(0, "no se pudo arrancar ffmpeg para exportar: "@.len() as int)
                == "no se pudo arrancar ffmpeg para exportar: "@,
            *self matches ExportError::Decode(_) ==> text@.len() >= "error decodificando la toma cruda: "@.len()
                && text@.subrange(0, "error decodificando la toma cruda: "@.len() as int)
                == "error decodificando la toma cruda: "@,
    {
        match self {
            ExportError::Spawn(e) => {
                let mut t = "no se pudo arrancar ffmpeg para exportar: ".to_owned();
                let ghost prefix = t@;
                let detail = io_error_text(e);
                t.append(detail.as_str());
                assert(t@.subrange(0, prefix.len() as int) =~= prefix);
                t
            },
            ExportError::FfmpegFailed(m) => {
                let mut t = "ffmpeg termino con error: ".to_owned();
                t.append(m.as_str());
                t
            },
            ExportError::Decode(e) => {
                let mut t = "error decodificando la toma cruda: ".to_owned();
                let ghost prefix = t@;
                let detail = e.message();
                t.append(detail.as_str());
                assert(t@.subrange(0, prefix.len() as int) =~= prefix);
                t
            },
            ExportError::Compositor(e) => {
                let mut t = "error en el compositor: ".to_owned();
                let detail = e.message();
                t.append(detail.as_str());
                t
            },
        }
    }
}

/// The text of each string of a list.
pub open spec fn texts(v: Seq<String>) -> Seq<Seq<char>> {
    v.map_values(|s: String| s@)
}

fn push_arg(args: &mut Vec<String>, s: &str)
    ensures
        texts(final(args)@) == texts(old(args)@).push(s@),
{
    args.push(s.to_owned());
    assert(texts(args@) =~= texts(old(args)@).push(s@));
}

fn push_owned_arg(args: &mut Vec<String>, s: String)
    ensures
        texts(final(args)@) == texts(old(args)@).push(s@),
{
    let ghost v = s@;
    args.push(s);
    assert(texts(args@) =~= texts(old(args)@).push(v));
}

/// `<width>x<height>`, the frame size argument of ffmpeg.
pub open spec fn size_text(width: u32, height: u32) -> Seq<char> {
    decimal(width as nat) + seq!['x'] + decimal(height as nat)
}

fn size_arg(width: u32, height: u32) -> (s: String)
    ensures
        s@ == size_text(width, height),
{
    let mut s = String::new();
    push_decimal(&mut s, width as u128);
    push_char(&mut s, 'x');
    push_decimal(&mut s, height as u128);
    assert(s@ =~= size_text(width, height));
    s
}

/// The arguments that read raw BGRA8 frames of `width` by `height` at `fps`
/// from standard input.
pub open spec fn raw_input_args(width: u32, height: u32, fps: u32) -> Seq<Seq<char>> {
    seq![
        "-y"@, "-v"@, "error"@, "-f"@, "rawvideo"@, "-pix_fmt"@, "bgra"@,
        "-s"@, size_text(width, height),
        "-r"@, decimal(fps as nat),
        "-i"@, "-"@,
    ]
}

fn push_raw_input_args(args: &mut Vec<String>, width: u32, height: u32, fps: u32)
    ensures
        texts(final(args)@) == texts(old(args)@) + raw_input_args(width, height, fps),
{
    push_arg(args, "-y");
    push_arg(args, "-v");
    push_arg(args, "error");
    push_arg(args, "-f");
    push_arg(args, "rawvideo");
    push_arg(args, "-pix_fmt");
    push_arg(args, "bgra");
    push_arg(args, "-s");
    push_owned_arg(args, size_arg(width, height));
    push_arg(args, "-r");
    push_owned_arg(args, crate::text::decimal_string(fps as u128));
    push_arg(args, "-i");
    push_arg(args, "-");
    assert(texts(args@) =~= texts(old(args)@) + raw_input_args(width, height, fps));
}

/// ffmpeg arguments of the final export, before the output path: raw BGRA8
/// frames on standard input, H.264 through `libopenh264` (LGPL) in 4:2:0.
pub open spec fn export_encoder_args(width: u32, height: u32, fps: u32) -> Seq<Seq<char>> {
    raw_input_args(width, height, fps) + seq!["-c:v"@, "libopenh264"@, "-pix_fmt"@, "yuv420p"@]
}

pub fn export_ffmpeg_args(width: u32, height: u32, fps: u32) -> (args: Vec<String>)
    ensures
        texts(args@) == export_encoder_args(width, height, fps),
{
    let mut args: Vec<String> = Vec::new();
    push_raw_input_args(&mut args, width, height, fps);
    push_arg(&mut args, "-c:v");
    push_arg(&mut args, "libopenh264");
    push_arg(&mut args, "-pix_fmt");
    push_arg(&mut args, "yuv420p");
    assert(texts(args@) =~= export_encoder_args(width, height, fps));
    args
}

/// ffmpeg arguments of the raw take encoder, before the output path: as
/// the export, plus a high bitrate (the raw take feeds later exports), one
/// keyframe per second, and a fragmented MP4 whose flushed part stays
/// playable if the recorder crashes.
pub open spec fn raw_take_encoder_args(width: u32, height: u32, fps: u32) -> Seq<Seq<char>> {
    raw_input_args(width, height, fps) + seq![
        "-c:v"@, "libopenh264"@, "-pix_fmt"@, "yuv420p"@, "-b:v"@, "50M"@,
        "-g"@, decimal(fps as nat),
        "-movflags"@, "frag_keyframe+empty_moov+default_base_moof"@,
    ]
}

pub fn raw_take_ffmpeg_args(width: u32, height: u32, fps: u32) -> (args: Vec<String>)
    ensures
        texts(args@) == raw_take_encoder_args(width, height, fps),
{
    let mut args: Vec<String> = Vec::new();
    push_raw_input_args(&mut args, width, height, fps);
    push_arg(&mut args, "-c:v");
    push_arg(&mut args, "libopenh264");
    push_arg(&mut args, "-pix_fmt");
    push_arg(&mut args, "yuv420p");
    push_arg(&mut args, "-b:v");
    push_arg(&mut args, "50M");
    push_arg(&mut args, "-g");
    push_owned_arg(&mut args, crate::text::decimal_string(fps as u128));
    push_arg(&mut args, "-movflags");
    push_arg(&mut args, "frag_keyframe+empty_moov+default_base_moof");
    assert(texts(args@) =~= raw_take_encoder_args(width, height, fps));
    args
}

/// ffmpeg arguments of the decoder around the input path: before it, and
/// after it (raw BGRA8 frames on standard output).
pub fn decode_ffmpeg_args() -> (args: (Vec<String>, Vec<String>))
    ensures
        texts(args.0@) == seq!["-v"@, "error"@, "-i"@],
        texts(args.1@) == seq!["-f"@, "rawvideo"@, "-pix_fmt"@, "bgra"@, "-"@],
{
    let mut before: Vec<String> = Vec::new();
    push_arg(&mut before, "-v");
    push_arg(&mut before, "error");
    push_arg(&mut before, "-i");
    let mut after: Vec<String> = Vec::new();
    push_arg(&mut after, "-f");
    push_arg(&mut after, "rawvideo");
    push_arg(&mut after, "-pix_fmt");
    push_arg(&mut after, "bgra");
    push_arg(&mut after, "-");
    assert(texts(before@) =~= seq!["-v"@, "error"@, "-i"@]);
    assert(texts(after@) =~= seq!["-f"@, "rawvideo"@, "-pix_fmt"@, "bgra"@, "-"@]);
    (before, after)
}

} // verus!
