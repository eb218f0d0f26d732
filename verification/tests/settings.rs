use compactor::compact::{
    compress_outcome, detect_outcome, driver_supports_compression, status_code,
    uncompress_outcome, version_supports_compression, Compression,
};
use compactor::config::{Config, ConfigFile};
use compactor::gui::{config_from_request, handle_request, split_lines, GuiRequest, Handled};

#[test]
fn test_config() {
    let s = Config::default();

    assert!(s.globset().is_ok());
    let gs = s.globset().unwrap();

    assert!(gs.is_match("C:\\foo\\bar\\hmm.rar"));
    assert!(gs.is_match("C:\\Windows\\System32\\floop\\bla.txt"));
    assert!(gs.is_match("C:\\x.lz4"));
}

#[test]
fn default_config() {
    let c = Config::default();
    assert!(!c.decimal);
    assert_eq!(c.compression, Compression::Xpress8k);
    assert_eq!(c.excludes.len(), 46);
    assert_eq!(c.excludes[0], "*:\\Windows*");
    assert_eq!(c.excludes[2], "*:\\$*");
    assert_eq!(c.excludes[7], "*.{bik,bk2,bnk,pc_binkvid}");
    assert_eq!(c.excludes[45], "*.zstd");
    let gs = c.globset().unwrap();
    assert_eq!(gs.len(), 46);
    assert!(!gs.is_match("C:\\Games\\data.bin"));
    assert!(gs.is_match("D:\\$RECYCLE.BIN\\x"));
    assert!(gs.is_match("movie.m4v"));
    assert!(!gs.is_match("movie.m3v"));
}

#[test]
fn bad_pattern_is_an_error() {
    let c = Config { decimal: false, compression: Compression::Lzx, excludes: vec!["*.{a,b".to_string()] };
    let reason = c.globset().unwrap_err();
    assert!(reason.contains("unclosed alternate group"));
    assert_ne!(reason, "*.{a,b");
    let c = Config { decimal: false, compression: Compression::Lzx, excludes: vec!["[".to_string()] };
    assert!(c.globset().is_err());
    let c = Config { decimal: false, compression: Compression::Lzx, excludes: vec![] };
    assert_eq!(c.globset().unwrap().len(), 0);
}

#[test]
fn the_first_refused_pattern_gives_the_reason() {
    let c = Config {
        decimal: false,
        compression: Compression::Lzx,
        excludes: vec!["*.a".to_string(), "[z-a]".to_string(), "{b".to_string()],
    };
    let reason = c.globset().unwrap_err();
    assert_eq!(reason, "error parsing glob '[z-a]': invalid range; 'z' > 'a'");
    let c = Config {
        decimal: false,
        compression: Compression::Lzx,
        excludes: vec!["*.a".to_string(), "b\\".to_string()],
    };
    // A backslash stands for itself, at the end of a pattern too.
    let set = c.globset().unwrap();
    assert_eq!(set.len(), 2);
    assert!(set.is_match("b\\"));
}

#[test]
fn duplicate_copies_everything() {
    let c = Config { decimal: true, compression: Compression::Lzx, excludes: vec!["a".to_string(), "b".to_string()] };
    let d = c.duplicate();
    assert!(d.decimal);
    assert_eq!(d.compression, Compression::Lzx);
    assert_eq!(d.excludes, c.excludes);
}

#[test]
fn config_file_keeps_what_it_is_given() {
    let mut f = ConfigFile::default();
    assert!(f.backing().is_none());
    assert_eq!(f.current().excludes.len(), 46);

    let stored = Config { decimal: true, compression: Compression::Xpress16k, excludes: vec!["*.iso".to_string()] };
    let mut g = ConfigFile::new("config.json", Some(stored));
    assert_eq!(g.backing().unwrap(), "config.json");
    assert!(g.current().decimal);
    assert_eq!(g.current().excludes, vec!["*.iso".to_string()]);

    let fallback = ConfigFile::new("config.json", None);
    assert!(!fallback.current().decimal);
    assert_eq!(fallback.current().compression, Compression::Xpress8k);

    f.replace(g.current());
    assert_eq!(f.current().compression, Compression::Xpress16k);
    g.replace(Config::default());
    assert_eq!(g.current().excludes.len(), 46);
    assert_eq!(g.backing().unwrap(), "config.json");
}

#[test]
fn compression_codes_and_names() {
    assert_eq!(Compression::default(), Compression::Xpress8k);
    assert_eq!(Compression::Xpress4k.code(), 0);
    assert_eq!(Compression::Lzx.code(), 1);
    assert_eq!(Compression::Xpress8k.code(), 2);
    assert_eq!(Compression::Xpress16k.code(), 3);
    for c in [Compression::Xpress4k, Compression::Xpress8k, Compression::Xpress16k, Compression::Lzx] {
        assert_eq!(Compression::from_code(c.code()), Some(c));
    }
    assert_eq!(Compression::from_code(4), None);

    assert_eq!(Compression::Xpress4k.name(), "XPRESS4k");
    assert_eq!(Compression::Xpress8k.name(), "XPRESS8K");
    assert_eq!(Compression::Xpress16k.name(), "XPRESS16K");
    assert_eq!(Compression::Lzx.name(), "LZX");
    assert_eq!(Compression::from_name("XPRESS4K"), Some(Compression::Xpress4k));
    assert_eq!(Compression::from_name("XPRESS8K"), Some(Compression::Xpress8k));
    assert_eq!(Compression::from_name("XPRESS16K"), Some(Compression::Xpress16k));
    assert_eq!(Compression::from_name("LZX"), Some(Compression::Lzx));
    assert_eq!(Compression::from_name("lzx"), None);
    assert_eq!(Compression::from_name(""), None);
    assert_eq!(Compression::Lzx.backing_request(), [1, 2, 1, 1, 0]);
    assert_eq!(Compression::Xpress16k.backing_request(), [1, 2, 1, 3, 0]);
}

#[test]
fn system_answers_are_read() {
    assert_eq!(compress_outcome(0), Ok(true));
    assert_eq!(compress_outcome(1), Ok(true));
    // 0x80070158: failure, facility 7, code 344.
    assert_eq!(compress_outcome(0x8007_0158u32 as i32), Ok(false));
    assert_eq!(compress_outcome(0x8007_0005u32 as i32), Err(5));
    assert_eq!(status_code(0x8007_0005u32 as i32), 5);
    assert_eq!(status_code(-1), 0xFFFF);
    assert_eq!(uncompress_outcome(0), Ok(()));
    assert_eq!(uncompress_outcome(0x8007_0002u32 as i32), Err(2));

    assert_eq!(detect_outcome(0, 1, 2, 1), Ok(Some(Compression::Lzx)));
    assert_eq!(detect_outcome(0, 1, 2, 9), Ok(None));
    assert_eq!(detect_outcome(0, 0, 2, 1), Ok(None));
    assert_eq!(detect_outcome(0, 1, 1, 1), Ok(None));
    assert_eq!(detect_outcome(0x8007_0003u32 as i32, 1, 2, 1), Err(3));

    assert!(driver_supports_compression(0, 1));
    assert!(!driver_supports_compression(0, 0));
    assert!(!driver_supports_compression(-1, 1));

    assert!(version_supports_compression(10 << 16));
    assert!(version_supports_compression((10 << 16) | 0xFFFF));
    assert!(!version_supports_compression((6 << 16) | 3));
    assert!(version_supports_compression(0xFFFF_0000));
}

#[test]
fn lines_are_split_at_line_feeds() {
    assert_eq!(split_lines(""), vec![""]);
    assert_eq!(split_lines("a"), vec!["a"]);
    assert_eq!(split_lines("a\nb"), vec!["a", "b"]);
    assert_eq!(split_lines("a\n"), vec!["a", ""]);
    assert_eq!(split_lines("\n\nx"), vec!["", "", "x"]);
    assert_eq!(split_lines("*.7z\n*.caf\u{e9}\n*.log"), vec!["*.7z", "*.caf\u{e9}", "*.log"]);
    let text = "one\ntwo\n\nthree\n";
    let expected: Vec<String> = text.split('\n').map(str::to_owned).collect();
    assert_eq!(split_lines(text), expected);
}

#[test]
fn requested_settings() {
    let c = config_from_request(true, "LZX", "*.a\n*.b");
    assert!(c.decimal);
    assert_eq!(c.compression, Compression::Lzx);
    assert_eq!(c.excludes, vec!["*.a", "*.b"]);
    let c = config_from_request(false, "nonsense", "");
    assert_eq!(c.compression, Compression::Xpress8k);
    assert_eq!(c.excludes, vec![""]);
}

#[test]
fn requests_that_concern_the_settings() {
    let mut file = ConfigFile::new("config.json", None);

    let h = handle_request(&mut file, GuiRequest::SaveConfig {
        decimal: true,
        compression: "XPRESS16K".to_string(),
        excludes: "*.iso\n*.zip".to_string(),
    });
    match h {
        Handled::Saved(c) => assert_eq!(c.excludes, vec!["*.iso", "*.zip"]),
        other => panic!("{:?}", other),
    }
    assert!(file.current().decimal);
    assert_eq!(file.current().compression, Compression::Xpress16k);

    let h = handle_request(&mut file, GuiRequest::SaveConfig {
        decimal: false,
        compression: "LZX".to_string(),
        excludes: "*.{iso".to_string(),
    });
    match h {
        Handled::Rejected(reason) => assert!(reason.starts_with("error parsing glob '*.{iso': ")),
        other => panic!("{:?}", other),
    }
    assert!(file.current().decimal);
    assert_eq!(file.current().excludes, vec!["*.iso", "*.zip"]);

    let h = handle_request(&mut file, GuiRequest::SaveConfig {
        decimal: false,
        compression: "LZX".to_string(),
        excludes: "*.a\n[z-a]\n{b".to_string(),
    });
    match h {
        Handled::Rejected(reason) => {
            assert_eq!(reason, "error parsing glob '[z-a]': invalid range; 'z' > 'a'")
        }
        other => panic!("{:?}", other),
    }
    assert_eq!(file.current().excludes, vec!["*.iso", "*.zip"]);

    let h = handle_request(&mut file, GuiRequest::ResetConfig);
    assert!(matches!(h, Handled::Saved(_)));
    assert!(!file.current().decimal);
    assert_eq!(file.current().excludes.len(), 46);

    let h = handle_request(&mut file, GuiRequest::OpenUrl { url: "https://example.org".to_string() });
    assert!(matches!(h, Handled::OpenUrl(u) if u == "https://example.org"));
    let h = handle_request(&mut file, GuiRequest::Compress);
    assert!(matches!(h, Handled::Forward(GuiRequest::Compress)));
    assert_eq!(file.current().excludes.len(), 46);
}
