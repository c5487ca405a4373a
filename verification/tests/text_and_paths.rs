use minecraft_panel::files;
use minecraft_panel::numbers;
use minecraft_panel::paths;
use minecraft_panel::text;
use minecraft_panel::text::CharClass;
use std::path::Component;
use std::path::Path;
use std::path::PathBuf;

const PATHS: [&str; 30] = [
    "", "/", "//", ".", "..", "a", "a/", "/a", "/a/", "a/b", "/a/b", "a//b", "/a//b/", "./a",
    "a/.", "a/./b", "/./a", "/a/.", "a/..", "../a", "/../a", "/a/../b", "a/b/../../..", "/a/b/c.txt",
    "./.", "/.", "/..", "a/b/.", "//a//b//", "/srv/data/./world/../mods/x.jar",
];

#[test]
fn white_space_is_that_of_unicode() {
    let mut code: u32 = 0;
    while code <= 0x10ffff {
        if let Some(c) = char::from_u32(code) {
            assert_eq!(CharClass::White.holds(c), c.is_whitespace(), "{:?}", c);
        }
        code += 1;
    }
}

#[test]
fn trimming_and_splitting_agree_with_std() {
    for s in ["", " ", "a", " a b ", "\t\u{a0}x\u{3000}", "a,b,,c", ",", "--a--", "a\r\nb\n"] {
        assert_eq!(text::trim(s), s.trim());
        assert_eq!(text::trim_class_of(s, CharClass::Is('-')), s.trim_matches('-'));
        let pieces: Vec<String> = s.split(',').map(|p| p.to_string()).collect();
        assert_eq!(text::split(s, CharClass::Is(',')), pieces);
        let words: Vec<String> = s.split_whitespace().map(|p| p.to_string()).collect();
        assert_eq!(text::words_of(s), words);
    }
    assert_eq!(text::join(&vec!["a".to_string(), "b".to_string()], ", "), "a, b");
    assert_eq!(text::unlines_of(&vec!["a".to_string(), "b".to_string()]), "a\nb\n");
}

#[test]
fn searching_agrees_with_std() {
    for s in ["", "a", "abcabc", "xxab", "äöü ab"] {
        for p in ["", "a", "ab", "bc", "ö", "zz"] {
            assert_eq!(text::contains(s, p), s.contains(p));
            assert_eq!(text::starts_with(s, p), s.starts_with(p));
            assert_eq!(text::ends_with(s, p), s.ends_with(p));
            assert_eq!(text::strip_prefix(s, p), s.strip_prefix(p).map(|t| t.to_string()));
            assert_eq!(text::before_first(s, p), s.find(p).map(|i| s[..i].to_string()));
            assert_eq!(text::less(s, p), s < p);
        }
        assert_eq!(text::byte_len(s), s.len());
    }
    assert_eq!(text::to_ascii_lower("AbC-Ä"), "abc-Ä");
}

#[test]
fn bytes_that_are_not_utf8_are_marked() {
    assert_eq!(text::text_of("grün".as_bytes()), "grün");
    assert_eq!(text::text_of(&[b'a', 0xff, b'b']), "a\u{fffd}b");
}

#[test]
fn numbers_are_written_and_read() {
    assert_eq!(numbers::decimal(0), "0");
    assert_eq!(numbers::decimal(u64::MAX), u64::MAX.to_string());
    assert_eq!(numbers::decimal_padded(7, 2), "07");
    assert_eq!(numbers::decimal_padded(1234, 2), "1234");
    assert_eq!(numbers::hex8(0), "00000000");
    assert_eq!(numbers::hex8(0xdead_beef), "deadbeef");
    for s in ["", "+", "-1", "0", "+7", "007", "65535", "65536", "1 ", "12a", "99999999999999999999"] {
        assert_eq!(numbers::parse_number(s, 65535), s.parse::<u16>().ok().map(|n| n as u64));
        assert_eq!(numbers::parse_number(s, u64::MAX), s.parse::<u64>().ok());
    }
}

fn normalized_by_std(path: &str) -> String {
    let mut out: Vec<Component> = Vec::new();
    for c in Path::new(path).components() {
        match c {
            Component::ParentDir => {
                out.pop();
            }
            Component::CurDir => {}
            other => out.push(other),
        }
    }
    out.iter().collect::<PathBuf>().to_string_lossy().to_string()
}

#[test]
fn paths_agree_with_std() {
    for p in PATHS {
        assert_eq!(paths::is_absolute(p), Path::new(p).is_absolute(), "{}", p);
        assert_eq!(
            paths::parent_of(p),
            Path::new(p).parent().map(|q| q.to_string_lossy().to_string()),
            "{}",
            p
        );
        assert_eq!(
            paths::file_name_of(p),
            Path::new(p).file_name().map(|q| q.to_string_lossy().to_string()),
            "{}",
            p
        );
        assert_eq!(files::normalize_path(p), normalized_by_std(p), "{}", p);
        for q in PATHS {
            assert_eq!(
                paths::join_path(p, q),
                Path::new(p).join(q).to_string_lossy().to_string(),
                "{} {}",
                p,
                q
            );
        }
    }
}

#[test]
fn safe_paths_agree_with_std() {
    for base in ["/srv/data", "/srv/data/", "/srv/./data/../data", "data", "/"] {
        for p in PATHS {
            let clean_base = normalized_by_std(base);
            let joined = if Path::new(p).is_absolute() {
                PathBuf::from(p)
            } else {
                Path::new(&clean_base).join(p)
            };
            let clean = normalized_by_std(&joined.to_string_lossy());
            let inside = Path::new(&clean).starts_with(&clean_base);
            match files::safe_path(base, None, p) {
                Ok(path) => {
                    assert!(inside, "{} {}", base, p);
                    assert_eq!(path, clean);
                }
                Err(e) => {
                    assert!(!inside, "{} {}", base, p);
                    assert_eq!(e.message(), "path outside data directory");
                }
            }
        }
    }
}

#[test]
fn canonical_base_counts_where_there_is_one() {
    assert_eq!(files::canonicalize_or_clean("/link/x", Some("/real/x")), "/real/x");
    assert_eq!(files::canonicalize_or_clean("/a/./b/..", None), "/a");
    assert_eq!(files::safe_path("/link", Some("/real"), "w").unwrap(), "/real/w");
    assert!(files::safe_path("/link", Some("/real"), "/link/w").is_err());
}

#[test]
fn traversal_is_refused() {
    assert!(files::safe_path("/srv/data", None, "../secret").is_err());
    assert!(files::safe_path("/srv/data", None, "/etc/passwd").is_err());
    assert!(files::safe_path("/srv/data", None, "/srv/database").is_err());
    assert_eq!(files::safe_path("/srv/data", None, "a/../b").unwrap(), "/srv/data/b");
}

#[test]
fn data_paths_are_mapped() {
    assert_eq!(files::map_data_path("/data", "/srv/x"), "/srv/x");
    assert_eq!(files::map_data_path("/data/a/b", "/srv/x"), "/srv/x/a/b");
    assert_eq!(files::map_data_path("/database", "/srv/x"), "/database");
    assert_eq!(files::map_data_path("rel", "/srv/x"), "rel");
}

#[test]
fn text_files_are_known_by_extension() {
    for name in ["server.properties", "A.JSON", "x.YML", "log", "a.b.toml", "run.sh"] {
        assert!(files::is_text_file(name), "{}", name);
    }
    for name in ["level.dat", "x.jar", "noext", "", "json.", "a.json "] {
        assert!(!files::is_text_file(name), "{}", name);
    }
    assert!(files::is_text_path("/srv/data/ops.json"));
    assert!(!files::is_text_path("/srv/data/world/level.dat"));
    let shown = files::read_file("/d/ops.json", "[]".to_string());
    assert!(!shown.binary);
    assert_eq!(shown.content, "[]");
    let hidden = files::read_file("/d/level.dat", "xyz".to_string());
    assert!(hidden.binary);
    assert_eq!(hidden.content, "");
    assert_eq!(hidden.path, "/d/level.dat");
}

#[test]
fn mods_are_moved_and_moved_back() {
    let off = files::disable_mod("/srv/d/mods/a.jar", "/srv/d").unwrap();
    assert_eq!(off.from, "/srv/d/mods/a.jar");
    assert_eq!(off.to, "/srv/d/mods/disabled/a.jar");
    let on = files::enable_mod(&off.to, "/srv/d").unwrap();
    assert_eq!(on.to, "/srv/d/mods/a.jar");
    assert_eq!(files::disable_mod("/", "/srv/d").unwrap_err().message(), "invalid mod path");
    assert_eq!(files::enable_mod("a/..", "/srv/d").unwrap_err().message(), "invalid path");
    assert_eq!(files::mods_dir("/srv/d"), "/srv/d/mods");
    assert_eq!(files::disabled_dir("/srv/d"), "/srv/d/mods/disabled");
}
