use open_flow::common::config::Config;
use open_flow::text_injection::chinese_convert::convert_chinese;
use open_flow::text_injection::injector::{pasted_by_wtype, pasted_by_xdotool};
use open_flow::text_injection::injector::{PasteRun, TextInjector};

/// Stands for the platform's transform.
fn transform(text: &str, reverse: bool) -> Option<String> {
    let pairs = [('简', '簡'), ('体', '體'), ('测', '測'), ('试', '試')];
    Some(
        text.chars()
            .map(|c| {
                for (simplified, traditional) in pairs {
                    if !reverse && c == simplified {
                        return traditional;
                    }
                    if reverse && c == traditional {
                        return simplified;
                    }
                }
                c
            })
            .collect(),
    )
}

#[test]
fn test_no_conversion() {
    assert_eq!(convert_chinese("hello", "", transform), "hello");
    assert_eq!(convert_chinese("hello", "none", transform), "hello");
}

#[test]
fn test_s2t() {
    let result = convert_chinese("简体中文测试", "s2t", transform);
    assert!(
        result.contains('簡') || result.contains('體'),
        "Expected traditional chars, got: {}",
        result
    );
}

#[test]
fn test_t2s() {
    let result = convert_chinese("簡體中文測試", "t2s", transform);
    assert!(
        result.contains('简') || result.contains('体'),
        "Expected simplified chars, got: {}",
        result
    );
}

#[test]
fn conversion_goes_the_way_the_mode_says() {
    assert_eq!(convert_chinese("简体", "s2t", transform), "簡體");
    assert_eq!(convert_chinese("简体", "t2s", transform), "简体");
    assert_eq!(convert_chinese("简体", "S2T", transform), "简体");
}

#[test]
fn a_failed_conversion_keeps_the_text() {
    assert_eq!(convert_chinese("简体", "s2t", |_: &str, _: bool| None), "简体");
    assert_eq!(convert_chinese("簡體", "t2s", |_: &str, _: bool| None), "簡體");
}

fn injector(chunk_size: u32) -> TextInjector {
    let mut config = Config::default();
    config.chinese_conversion = "s2t".to_string();
    config.typing_chunk_size = chunk_size;
    config.typing_delay_ms = 7;
    TextInjector::new(&config)
}

#[test]
fn injector_follows_the_configuration() {
    let injector = injector(3);
    assert_eq!(injector.typing(), (3, 7));
    assert_eq!(injector.prepare("简a", transform), "簡a");
    assert_eq!(TextInjector::new(&Config::default()).typing(), (8, 10));
    assert_eq!(TextInjector::new(&Config::default()).prepare("简a", transform), "简a");
}

#[test]
fn keystrokes_come_in_pieces() {
    assert_eq!(injector(3).keystrokes(""), Vec::<Vec<u16>>::new());
    let pieces = injector(3).keystrokes("ab\ncdefg");
    let units = |s: &str| s.encode_utf16().collect::<Vec<u16>>();
    assert_eq!(pieces, vec![units("ab\r"), units("cde"), units("fg")]);
    assert_eq!(injector(8).keystrokes("\n\n"), vec![units("\r\r")]);
    // A piece size of 0 is read as the default.
    assert_eq!(injector(0).keystrokes("abcdefghij"), vec![units("abcdefgh"), units("ij")]);
    assert_eq!(injector(0).typing(), (0, 7));
}

#[test]
fn keystrokes_are_utf16() {
    let text = "a\u{e9}\u{4f60}\u{ffff}\u{10000}\u{1f600}\u{10ffff}\u{d7ff}\u{e000}";
    let typed: Vec<u16> = injector(2).keystrokes(text).into_iter().flatten().collect();
    assert_eq!(typed, text.encode_utf16().collect::<Vec<u16>>());
    let typed: Vec<u16> =
        injector(1).keystrokes("\u{1f600}\n好").into_iter().flatten().collect();
    assert_eq!(String::from_utf16(&typed).unwrap(), "\u{1f600}\r好");
}

#[test]
fn pasting_falls_back() {
    assert!(pasted_by_xdotool(&PasteRun::Success));
    assert!(!pasted_by_xdotool(&PasteRun::Failed("x".to_string())));
    assert!(!pasted_by_xdotool(&PasteRun::NotRun));
    assert_eq!(pasted_by_wtype(&PasteRun::Success), Ok(()));
    assert_eq!(
        pasted_by_wtype(&PasteRun::Failed("no display".to_string())),
        Err("Both xdotool and wtype failed. wtype error: no display".to_string())
    );
    assert_eq!(
        pasted_by_wtype(&PasteRun::NotRun),
        Err("Neither xdotool nor wtype found, cannot simulate paste.".to_string())
    );
}
