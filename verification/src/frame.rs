//! Frame buffer arithmetic of the compositor and the decoder: BGRA8 frame
//! sizes, readback row padding, and the errors of both stages.

use vstd::prelude::*;
use crate::text::{decimal, push_decimal};
use crate::input::io_error_text;

verus! {

/// Bytes per pixel of the BGRA8 format used across the pipeline.
pub const BYTES_PER_PIXEL: u32 = 4;

#[derive(Debug, Clone, PartialEq, Eq)]
pub enum CompositorError {
    NoAdapter(String),
    NoDevice(String),
    BadInputSize { expected: usize, actual: usize },
    MapFailed(String),
}

pub open spec fn compositor_error_text(e: CompositorError) -> Seq<char> {
    match e {
        CompositorError::NoAdapter(m) => "no se encontro un adaptador de GPU compatible: "@ + m@,
        CompositorError::NoDevice(m) => "no se pudo obtener el device/queue de GPU: "@ + m@,
        CompositorError::BadInputSize { expected, actual } => "el buffer de entrada no tiene el tamanio esperado (esperado "@
            + decimal(expected as nat) + ", recibido "@ + decimal(actual as nat) + ")"@,
        CompositorError::MapFailed(m) => "no se pudo mapear el buffer de lectura: "@ + m@,
    }
}

impl CompositorError {
    /// The user-facing text of this error.
    pub fn message(&self) -> (text: String)
        ensures
            text@ == compositor_error_text(*self),
    {
        match self {
            CompositorError::NoAdapter(m) => {
                let mut t = "no se encontro un adaptador de GPU compatible: ".to_owned();
                t.append(m.as_str());
                t
            },
            CompositorError::NoDevice(m) => {
                let mut t = "no se pudo obtener el device/queue de GPU: ".to_owned();
                t.append(m.as_str());
                t
            },
            CompositorError::BadInputSize { expected, actual } => {
                let mut t = "el buffer de entrada no tiene el tamanio esperado (esperado ".to_owned();
                push_decimal(&mut t, *expected as u128);
                t.append(", recibido ");
                push_decimal(&mut t, *actual as u128);
                t.append(")");
                assert(t@ =~= compositor_error_text(*self));
                t
            },
            CompositorError::MapFailed(m) => {
                let mut t = "no se pudo mapear el buffer de lectura: ".to_owned();
                t.append(m.as_str());
                t
            },
        }
    }
}

#[derive(Debug)]
pub enum DecodeError {
    SpawnFailed(std::io::Error),
}

impl DecodeError {
    /// The user-facing text of this error: a fixed explanation followed by
    /// the text of the underlying I/O error.
    pub fn message(&self) -> (text: String)
        ensures
            text@.len() >= "no se pudo arrancar ffmpeg para decodificar: "@.len(),
            text@.subrange(0, "no se pudo arrancar ffmpeg para decodificar: "@.len() as int)
                == "no se pudo arrancar ffmpeg para decodificar: "@,
    {
        match self {
            DecodeError::SpawnFailed(e) => {
                let mut t = "no se pudo arrancar ffmpeg para decodificar: ".to_owned();
                let ghost prefix = t@;
                let detail = io_error_text(e);
                t.append(detail.as_str());
                assert(t@.subrange(0, prefix.len() as int) =~= prefix);
                t
            },
        }
    }
}

/// Where reading one decoded frame stands after a read from the decoder.
#[derive(Debug, Clone, Copy, PartialEq, Eq, Structural)]
pub enum FrameRead {
    /// This many bytes of the frame are in; keep reading.
    Partial(usize),
    /// The frame is complete.
    Complete,
    /// The decoder ended; a partly read last frame is dropped, not an error.
    EndOfStream,
}

/// The next step of reading a frame of `frame_size` bytes, `read_total` of
/// which were in before a read that returned `n` more bytes (a read never
/// returns more than was asked for, and zero only at the end of the
/// stream).
pub fn frame_read_step(read_total: usize, n: usize, frame_size: usize) -> (step: FrameRead)
    requires
        read_total < frame_size,
        n <= frame_size - read_total,
    ensures
        n == 0 ==> step == FrameRead::EndOfStream,
        n > 0 && read_total + n == frame_size ==> step == FrameRead::Complete,
        n > 0 && read_total + n < frame_size ==> step == FrameRead::Partial((read_total + n) as usize),
{
    if n == 0 {
        FrameRead::EndOfStream
    } else if read_total + n == frame_size {
        FrameRead::Complete
    } else {
        FrameRead::Partial(read_total + n)
    }
}

/// Checks that an input frame has exactly `input_width * input_height`
/// BGRA8 pixels.
pub fn check_input_size(input_width: u32, input_height: u32, len: usize) -> (r: Result<(), CompositorError>)
    requires
        input_width * input_height * 4 <= u32::MAX,
    ensures
        len == input_width * input_height * 4 ==> r is Ok,
        len != input_width * input_height * 4 ==> r == Err::<(), CompositorError>(
            CompositorError::BadInputSize { expected: (input_width * input_height * 4) as usize, actual: len },
        ),
{
    assert(input_width * input_height <= u32::MAX) by (nonlinear_arith)
        requires
            input_width * input_height * 4 <= u32::MAX,
    ;
    let expected = (input_width * input_height * BYTES_PER_PIXEL) as usize;
    if len != expected {
        return Err(CompositorError::BadInputSize { expected, actual: len });
    }
    Ok(())
}

/// Size in bytes of one BGRA8 frame of `width` by `height` pixels.
pub fn frame_byte_len(width: u32, height: u32) -> (n: usize)
    requires
        width * height * 4 <= usize::MAX,
    ensures
        n == width * height * 4,
{
    assert(width * height <= usize::MAX) by (nonlinear_arith)
        requires
            width * height * 4 <= usize::MAX,
    ;
    (width as usize) * (height as usize) * 4
}

/// Row sizes of the readback buffer: the bytes of one output row, and that
/// size rounded up to a multiple of `align` as texture-to-buffer copies
/// require.
pub fn readback_row_bytes(output_width: u32, align: u32) -> (rows: (u32, u32))
    requires
        align > 0,
        output_width * 4 + align <= u32::MAX,
    ensures
        rows.0 == output_width * 4,
        rows.1 % align == 0,
        rows.0 <= rows.1 < rows.0 + align,
{
    let unpadded = output_width * BYTES_PER_PIXEL;
    let blocks = unpadded / align + if unpadded % align == 0 {
        0
    } else {
        1
    };
    assert(blocks * align <= unpadded + align) by (nonlinear_arith)
        requires
            blocks == unpadded / align + if unpadded % align == 0 { 0int } else { 1 },
            align > 0,
            unpadded >= 0,
    ;
    let padded = blocks * align;
    assert(padded % align == 0 && unpadded <= padded < unpadded + align) by (nonlinear_arith)
        requires
            blocks == unpadded / align + if unpadded % align == 0 { 0int } else { 1 },
            padded == blocks * align,
            align > 0,
            unpadded >= 0,
    ;
    (unpadded, padded)
}

/// The first `unpadded` bytes of each of the first `rows` rows of `data`,
/// rows being `padded` bytes apart, concatenated.
pub open spec fn unpadded_rows(data: Seq<u8>, padded: int, unpadded: int, rows: int) -> Seq<u8>
    decreases rows,
{
    if rows <= 0 {
        Seq::empty()
    } else {
        unpadded_rows(data, padded, unpadded, rows - 1) + data.subrange(
            (rows - 1) * padded,
            (rows - 1) * padded + unpadded,
        )
    }
}

/// Strips the row padding of a readback buffer: keeps the first `unpadded`
/// bytes of each of `height` rows spaced `padded` bytes apart.
pub fn unpad_rows(data: &[u8], padded: usize, unpadded: usize, height: usize) -> (out: Vec<u8>)
    requires
        unpadded <= padded,
        height * padded <= data@.len(),
    ensures
        out@ == unpadded_rows(data@, padded as int, unpadded as int, height as int),
{
    let dlen = data.len();
    let mut out: Vec<u8> = Vec::new();
    let mut row: usize = 0;
    while row < height
        invariant
            dlen == data@.len(),
            row <= height,
            unpadded <= padded,
            height * padded <= data@.len(),
            out@ == unpadded_rows(data@, padded as int, unpadded as int, row as int),
        decreases height - row,
    {
        assert(row * padded + unpadded <= height * padded) by (nonlinear_arith)
            requires
                row < height,
                unpadded <= padded,
        ;
        let start = row * padded;
        let mut c: usize = 0;
        let ghost before = out@;
        while c < unpadded
            invariant
                c <= unpadded,
                dlen == data@.len(),
                start + unpadded <= data@.len(),
                out@ == before + data@.subrange(start as int, start + c),
            decreases unpadded - c,
        {
            out.push(data[start + c]);
            assert(out@ =~= before + data@.subrange(start as int, start + c + 1));
            c = c + 1;
        }
        assert((row + 1 - 1) * padded == start);
        row = row + 1;
    }
    out
}

} // verus!
