use ffstudio::error::{to_user_message, FFStudioError};

#[test]
fn subsystem_prefixes_are_exact() {
    assert_eq!(
        to_user_message(&FFStudioError::workflow("missing graph")),
        "Workflow error: missing graph"
    );
    assert_eq!(
        to_user_message(&FFStudioError::network("port in use")),
        "Network error: port in use"
    );
    assert_eq!(
        to_user_message(&FFStudioError::parse("bad token")),
        "Parse error: bad token"
    );
    assert_eq!(
        to_user_message(&FFStudioError::application("boom")),
        "Application error: boom"
    );
    assert_eq!(
        to_user_message(&FFStudioError::glob("bad walk")),
        "Glob error: bad walk"
    );
    assert_eq!(
        to_user_message(&FFStudioError::pattern("bad star")),
        "Pattern error: bad star"
    );
    assert_eq!(
        to_user_message(&FFStudioError::file_system("disk full")),
        "File system error: disk full"
    );
    assert_eq!(
        to_user_message(&FFStudioError::ffmpeg("bad filter")),
        "FFmpeg error: bad filter"
    );
    assert_eq!(
        to_user_message(&FFStudioError::io("pipe closed")),
        "IO error: pipe closed"
    );
}

#[test]
fn json_errors_hide_their_detail() {
    assert_eq!(
        to_user_message(&FFStudioError::json("expected value at line 3")),
        "Invalid data format. Please try again."
    );
}

#[test]
fn well_known_causes_are_reworded() {
    assert_eq!(
        to_user_message(&FFStudioError::file_system("open: Permission denied (os error 13)")),
        "Permission denied. Please check file permissions."
    );
    assert_eq!(
        to_user_message(&FFStudioError::file_system("stat: No such file")),
        "File not found. Please check the file path."
    );
    assert_eq!(
        to_user_message(&FFStudioError::ffmpeg("ffmpeg: not found")),
        "FFmpeg not found. Please install FFmpeg or check the path."
    );
    assert_eq!(
        to_user_message(&FFStudioError::ffmpeg("exec: Permission denied")),
        "Permission denied when running FFmpeg."
    );
    assert_eq!(
        to_user_message(&FFStudioError::io("write: Permission denied")),
        "Permission denied. Please check file permissions."
    );
}
