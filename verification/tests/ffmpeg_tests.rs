use replaytrim::ffmpeg::{failure_tail, lines_of, volume_texts_of, waveform_filter};

fn lines(text: &str) -> Vec<String> {
    lines_of(text).into_iter().map(|l| l.into_iter().collect()).collect()
}

#[test]
fn waveform_filter_text() {
    assert_eq!(
        waveform_filter(1200, 120),
        "[0:a]asplit=2[w][v];[w]showwavespic=s=1200x120:colors=0x6ea8ff:scale=sqrt:filter=peak[wave];[v]volumedetect[vd]"
    );
}

#[test]
fn lines_like_str_lines() {
    for text in ["", "a", "a\n", "a\r\nb", "a\n\nb\n", "x\r", "\n", "a\r\n\r\n", "\r\n"] {
        let expected: Vec<String> = text.lines().map(|l| l.to_string()).collect();
        assert_eq!(lines(text), expected, "{:?}", text);
    }
}

#[test]
fn failure_tail_shows_last_four_lines_newest_first() {
    assert_eq!(failure_tail("one\ntwo\nthree\nfour\nfive\n"), "five | four | three | two");
    assert_eq!(failure_tail("only"), "only");
    assert_eq!(failure_tail(""), "");
    assert_eq!(failure_tail("a\r\nb"), "b | a");
}

#[test]
fn volume_texts_from_volumedetect() {
    let out = "[Parsed_volumedetect_0 @ 0x1] mean_volume: -27.3 dB\n[Parsed_volumedetect_0 @ 0x1] max_volume: -4.5 dB\r\n";
    assert_eq!(volume_texts_of(out), vec!["-4.5".to_string()]);
    assert_eq!(volume_texts_of("max_volume:   -91.0 dB dB  \nmax_volume: x"), vec!["-91.0".to_string(), "x".to_string()]);
    assert_eq!(volume_texts_of("a max_volume: 1 max_volume: 2"), vec!["1".to_string()]);
    assert_eq!(volume_texts_of("no level here"), Vec::<String>::new());
    assert_eq!(volume_texts_of("max_volume:\u{3000}-3 dB\u{3000}"), vec!["-3".to_string()]);
}

#[test]
fn volume_text_trims_unicode_white_space_like_std() {
    for c in (0u32..0x3100).filter_map(char::from_u32) {
        let text = format!("max_volume:{c}7{c} dB{c}");
        let expected: Vec<String> = text
            .lines()
            .filter_map(|l| l.split("max_volume:").nth(1).map(|s| s.trim().trim_end_matches(" dB").to_string()))
            .collect();
        assert_eq!(volume_texts_of(&text), expected, "{:?}", c);
    }
}
