use powerclip::clipboard::{select_clipboard_content, ClipboardContent, ImageData};
use powerclip::error::{err, PowerClipError};
use powerclip::history::calculate_hash;
use powerclip::image::{detect_image_mime, image_data_url, ImageCache};
use powerclip::logger::{debug, error, format_log_line, info, warning, LogBuffer, LogLevel};
use powerclip::monitor::{is_monitor_running, stop_clipboard_monitor, MonitorFlag};
use powerclip::settings::{init_semantic_tracker, strip_comments};
use powerclip::window_config::WindowConfig;

#[test]
fn md5_hash_of_content() {
    assert_eq!(calculate_hash(b"hello"), "5d41402abc4b2a76b9719d911017c592");
    assert_eq!(calculate_hash(b""), "d41d8cd98f00b204e9800998ecf8427e");
}

#[test]
fn mime_from_magic_bytes() {
    assert_eq!(detect_image_mime(&[0x89, 0x50, 0x4E, 0x47, 0x0D]), "image/png");
    assert_eq!(detect_image_mime(&[0xFF, 0xD8, 0xFF, 0xE0]), "image/jpeg");
    assert_eq!(detect_image_mime(b"GIF89a"), "image/gif");
    assert_eq!(detect_image_mime(&[0x00, 0x01]), "image/png");
    assert_eq!(detect_image_mime(&[]), "image/png");
}

#[test]
fn data_url_holds_mime_and_base64() {
    assert_eq!(image_data_url(&[0xFF, 0xD8, 0xFF]), "data:image/jpeg;base64,/9j/");
    assert_eq!(image_data_url(&[0x89, 0x50, 0x4E, 0x47]), "data:image/png;base64,iVBORw==");
}

#[test]
fn image_cache_get_and_replace() {
    let mut cache = ImageCache::new();
    assert_eq!(cache.get("abc"), None);
    cache.insert("abc".to_string(), vec![1, 2, 3]);
    cache.insert("def".to_string(), vec![4]);
    assert_eq!(cache.get("abc"), Some(vec![1, 2, 3]));
    cache.insert("abc".to_string(), vec![9]);
    assert_eq!(cache.get("abc"), Some(vec![9]));
    assert_eq!(cache.get("def"), Some(vec![4]));
}

#[test]
fn log_lines_and_levels() {
    assert_eq!(
        format_log_line("2024-01-01 10:00:00.000", LogLevel::Warning, "Semantic", "slow"),
        "[2024-01-01 10:00:00.000] [WARNING] [Semantic] slow\n"
    );
    assert_eq!(LogLevel::effective(true), LogLevel::Debug);
    assert_eq!(LogLevel::effective(false), LogLevel::Info);
    assert_eq!(LogLevel::Error.as_str(), "ERROR");
    let mut log = LogBuffer::new(LogLevel::Info);
    debug(&mut log, "t", "m", "hidden");
    info(&mut log, "t", "m", "shown");
    warning(&mut log, "t", "m", "w");
    error(&mut log, "t", "m", "e");
    let lines = log.take_lines();
    assert_eq!(lines, vec!["[t] [INFO] [m] shown\n", "[t] [WARNING] [m] w\n", "[t] [ERROR] [m] e\n"]);
    assert!(log.take_lines().is_empty());
    assert_eq!(log.level(), LogLevel::Info);
}

#[test]
fn error_messages() {
    assert_eq!(PowerClipError::Io("disk full".to_string()).message(), "I/O error: disk full");
    assert_eq!(PowerClipError::Json("bad".to_string()).message(), "JSON error: bad");
    match err::<u8>("missing key") {
        Err(PowerClipError::Config(m)) => assert_eq!(m, "missing key"),
        _ => panic!("expected a configuration error"),
    }
}

#[test]
fn semantic_enable_transition() {
    let mut tracker = init_semantic_tracker(false);
    assert!(!tracker.check_semantic_enabled_transition(false));
    assert!(tracker.check_semantic_enabled_transition(true));
    assert!(!tracker.check_semantic_enabled_transition(true));
    assert!(!tracker.check_semantic_enabled_transition(false));
    assert!(tracker.check_semantic_enabled_transition(true));
    let mut on = init_semantic_tracker(true);
    assert!(!on.check_semantic_enabled_transition(true));
}

#[test]
fn clipboard_content_prefers_image() {
    let img = ImageData { bytes: vec![1, 2, 3, 4], width: 1, height: 1 };
    match select_clipboard_content(Some(img), Some("text".to_string())) {
        Some(ClipboardContent::Image(i)) => assert_eq!(i.bytes, vec![1, 2, 3, 4]),
        _ => panic!("expected the image"),
    }
    let empty = ImageData { bytes: vec![], width: 0, height: 0 };
    match select_clipboard_content(Some(empty), Some("text".to_string())) {
        Some(ClipboardContent::Text(t)) => assert_eq!(t, "text"),
        _ => panic!("expected the text"),
    }
    assert!(select_clipboard_content(None, Some("a\0b".to_string())).is_none());
    assert!(select_clipboard_content(None, Some(String::new())).is_none());
    assert!(select_clipboard_content(None, None).is_none());
}

#[test]
fn monitor_flag() {
    let mut flag = MonitorFlag::new();
    assert!(!is_monitor_running(&flag));
    assert!(flag.try_start());
    assert!(!flag.try_start());
    assert!(is_monitor_running(&flag));
    stop_clipboard_monitor(&mut flag);
    assert!(!is_monitor_running(&flag));
}

#[test]
fn window_config_default() {
    assert_eq!(WindowConfig::default(), WindowConfig { x: 100, y: 100, width: 450, height: 400 });
}

#[test]
fn comment_lines_are_stripped() {
    let text = "// header\n{\n  // note\n  \"a\": 1,\n\t//tab\n  \"b\": \"x//y\"\n}\n";
    assert_eq!(strip_comments(text), "{\n  \"a\": 1,\n  \"b\": \"x//y\"\n}");
    assert_eq!(strip_comments("a\r\nb"), "a\nb");
    assert_eq!(strip_comments("a\n\n//x"), "a\n");
    assert_eq!(strip_comments("   // only"), "");
    assert_eq!(strip_comments(""), "");
    assert_eq!(strip_comments("x\r"), "x\r");
}
