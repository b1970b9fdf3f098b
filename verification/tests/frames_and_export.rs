use screenzoom::export::{
    decode_ffmpeg_args, export_ffmpeg_args, frame_time_ms, raw_take_ffmpeg_args, resolution_pixels, ExportError,
};
use screenzoom::frame::{frame_read_step, FrameRead, check_input_size, frame_byte_len, readback_row_bytes, unpad_rows, CompositorError};
use screenzoom::project::ExportResolution;

#[test]
fn export_resolutions_are_16_by_9() {
    assert_eq!(resolution_pixels(ExportResolution::P1080), (1920, 1080));
    assert_eq!(resolution_pixels(ExportResolution::P1440), (2560, 1440));
    assert_eq!(resolution_pixels(ExportResolution::P4k), (3840, 2160));
}

#[test]
fn exported_frames_are_timed_by_the_take_rate() {
    assert_eq!(frame_time_ms(0, 60), 0);
    assert_eq!(frame_time_ms(60, 60), 1_000);
    assert_eq!(frame_time_ms(61, 60), 1_016);
    assert_eq!(frame_time_ms(3, 0), 3_000);
}

#[test]
fn input_frames_must_have_the_expected_size() {
    assert_eq!(check_input_size(64, 32, 64 * 32 * 4), Ok(()));
    assert_eq!(
        check_input_size(64, 32, 10),
        Err(CompositorError::BadInputSize { expected: 8192, actual: 10 })
    );
    assert_eq!(
        CompositorError::BadInputSize { expected: 8192, actual: 10 }.message(),
        "el buffer de entrada no tiene el tamanio esperado (esperado 8192, recibido 10)"
    );
    assert_eq!(frame_byte_len(1920, 1080), 8_294_400);
}

#[test]
fn readback_rows_are_padded_to_the_copy_alignment() {
    assert_eq!(readback_row_bytes(64, 256), (256, 256));
    assert_eq!(readback_row_bytes(100, 256), (400, 512));
    assert_eq!(readback_row_bytes(0, 256), (0, 0));
}

#[test]
fn unpadding_keeps_the_pixels_of_each_row() {
    let data: Vec<u8> = (0u8..12).collect();
    assert_eq!(unpad_rows(&data, 4, 3, 3), vec![0, 1, 2, 4, 5, 6, 8, 9, 10]);
    assert_eq!(unpad_rows(&data, 6, 6, 2), data);
}

#[test]
fn export_encoder_reads_raw_bgra_and_writes_h264() {
    let args = export_ffmpeg_args(1920, 1080, 60);
    assert_eq!(
        args,
        vec![
            "-y", "-v", "error", "-f", "rawvideo", "-pix_fmt", "bgra", "-s", "1920x1080", "-r", "60", "-i", "-",
            "-c:v", "libopenh264", "-pix_fmt", "yuv420p",
        ]
    );
}

#[test]
fn raw_take_encoder_writes_a_fragmented_mp4() {
    let args = raw_take_ffmpeg_args(2560, 1440, 144);
    assert_eq!(
        args,
        vec![
            "-y", "-v", "error", "-f", "rawvideo", "-pix_fmt", "bgra", "-s", "2560x1440", "-r", "144", "-i", "-",
            "-c:v", "libopenh264", "-pix_fmt", "yuv420p", "-b:v", "50M", "-g", "144", "-movflags",
            "frag_keyframe+empty_moov+default_base_moof",
        ]
    );
}

#[test]
fn decoder_writes_raw_bgra_to_standard_output() {
    let (before, after) = decode_ffmpeg_args();
    assert_eq!(before, vec!["-v", "error", "-i"]);
    assert_eq!(after, vec!["-f", "rawvideo", "-pix_fmt", "bgra", "-"]);
}

#[test]
fn export_error_messages() {
    assert_eq!(ExportError::FfmpegFailed("boom".into()).message(), "ffmpeg termino con error: boom");
    assert_eq!(
        ExportError::Compositor(CompositorError::NoAdapter("none".into())).message(),
        "error en el compositor: no se encontro un adaptador de GPU compatible: none"
    );
    let io = std::io::Error::new(std::io::ErrorKind::NotFound, "ffmpeg");
    assert!(ExportError::Spawn(io).message().starts_with("no se pudo arrancar ffmpeg para exportar: "));
}

// The size check of the compositor, on the input of a 64 by 64 frame.
#[test]
fn rejects_input_buffer_with_wrong_size() {
    let bad_input = vec![0u8; 10];
    let err = check_input_size(64, 64, bad_input.len()).unwrap_err();
    assert!(matches!(err, CompositorError::BadInputSize { .. }));
    assert_eq!(err, CompositorError::BadInputSize { expected: 16_384, actual: 10 });
}

#[test]
fn frames_are_read_until_complete_and_a_truncated_last_frame_ends_the_stream() {
    assert_eq!(frame_read_step(0, 3, 8), FrameRead::Partial(3));
    assert_eq!(frame_read_step(3, 5, 8), FrameRead::Complete);
    assert_eq!(frame_read_step(0, 8, 8), FrameRead::Complete);
    assert_eq!(frame_read_step(3, 0, 8), FrameRead::EndOfStream);
    assert_eq!(frame_read_step(0, 0, 8), FrameRead::EndOfStream);
}
