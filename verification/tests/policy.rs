use hecate_lampad_shared::policy::{
    allowlist_has_wildcard, canonicalize_binary, check_cwd_policy, check_elevation_policy,
    check_elevation_wrapper_denied, check_env_keys, check_env_policy, check_shell_policy,
    check_wrapper_name, cwd_matches_allowed, normalize_path, normalize_path_no_traversal,
    reject_path_traversal, validate_argv, PolicyError, ALLOWLIST_WILDCARD, DANGEROUS_ENV_KEYS,
};
use std::collections::HashMap;

fn strings(items: &[&str]) -> Vec<String> {
    items.iter().map(|s| s.to_string()).collect()
}

#[test]
fn rejects_metacharacters() {
    let err = validate_argv(&["/bin/ls".into(), "-la; rm".into()]).unwrap_err();
    assert!(matches!(err, PolicyError::Metacharacter { .. }));
}

#[test]
fn allows_clean_argv() {
    validate_argv(&["/usr/bin/uptime".into()]).unwrap();
}

#[test]
fn shell_policy_enforced() {
    let allowed = vec!["/usr/bin/uptime".into()];
    check_shell_policy(&["/usr/bin/uptime".into()], &allowed).unwrap();
    check_shell_policy(&["/bin/sh".into()], &allowed).unwrap_err();
}

#[test]
fn rejects_extended_elevation_wrappers() {
    for wrapper in ["su", "doas", "runuser", "sudoedit", "machinectl", "systemd-run"] {
        check_elevation_wrapper_denied(&[wrapper.into()]).unwrap_err();
    }
    check_elevation_wrapper_denied(&["/usr/bin/doas".into()]).unwrap_err();
    check_elevation_wrapper_denied(&["/usr/bin/uptime".into()]).unwrap();
}

#[test]
fn shell_policy_wildcard_allows_any_binary() {
    let allowed = vec![ALLOWLIST_WILDCARD.into()];
    check_shell_policy(&["/bin/sh".into(), "-c".into(), "id".into()], &allowed).unwrap();
}

#[test]
fn cwd_allows_subdirectories() {
    let allowed = vec!["/tmp".into()];
    check_cwd_policy("/tmp", &allowed).unwrap();
    check_cwd_policy("/tmp/nested", &allowed).unwrap();
    check_cwd_policy("/tmp/nested/deep", &allowed).unwrap();
    check_cwd_policy("/etc", &allowed).unwrap_err();
}

#[test]
fn cwd_empty_allowlist_denies_all_paths() {
    check_cwd_policy("/any/path", &[]).unwrap_err();
}

#[test]
fn rejects_path_traversal_components() {
    let allowed = vec!["/tmp".into()];
    check_cwd_policy("/tmp/../etc/passwd", &allowed).unwrap_err();
    assert!(matches!(
        reject_path_traversal("/tmp/../etc"),
        Err(PolicyError::PathTraversal { .. })
    ));
}

#[test]
fn cwd_windows_paths_normalize_separators() {
    let allowed = vec![r"C:\Windows\Temp".into()];
    check_cwd_policy(r"C:\Windows\Temp", &allowed).unwrap();
    check_cwd_policy(r"C:\Windows\Temp\nested", &allowed).unwrap();
    check_cwd_policy("C:/Windows/Temp/nested", &allowed).unwrap();
    check_cwd_policy(r"C:\Windows\System32", &allowed).unwrap_err();
}

#[test]
fn cwd_windows_paths_are_case_insensitive() {
    let allowed = vec!["C:/Windows/Temp".into()];
    check_cwd_policy(r"c:\windows\temp\file.txt", &allowed).unwrap();
}

#[test]
fn cwd_windows_verbatim_prefix_matches_allowlist() {
    let allowed = vec![r"C:\Windows\Temp".into()];
    check_cwd_policy(r"\\?\C:\Windows\Temp\nested", &allowed).unwrap();
    check_cwd_policy("//?/C:/Windows/Temp/nested", &allowed).unwrap();
}

#[test]
fn path_blocked_even_with_wildcard() {
    let mut env = HashMap::new();
    env.insert("PATH".into(), "/evil".into());
    let err = check_env_policy(&env, &[ALLOWLIST_WILDCARD.into()]).unwrap_err();
    assert!(matches!(err, PolicyError::DangerousEnv { .. }));
}

// Binaries.

#[test]
fn canonical_binary_loses_unicode_white_space_only() {
    assert_eq!(canonicalize_binary(" \t/bin/ls\n"), "/bin/ls");
    assert_eq!(canonicalize_binary("\u{3000}/bin/a b\u{2028}"), "/bin/a b");
    assert_eq!(canonicalize_binary("\u{200b}x"), "\u{200b}x");
    assert_eq!(canonicalize_binary("  "), "");
}

#[test]
fn white_space_is_what_unicode_says() {
    let listed = [
        0x9, 0xa, 0xb, 0xc, 0xd, 0x20, 0x85, 0xa0, 0x1680, 0x2000, 0x2001, 0x2002, 0x2003, 0x2004,
        0x2005, 0x2006, 0x2007, 0x2008, 0x2009, 0x200a, 0x2028, 0x2029, 0x202f, 0x205f, 0x3000,
    ];
    for n in 0..0x110000u32 {
        if let Some(c) = char::from_u32(n) {
            let mut s = String::new();
            s.push(c);
            let blank = canonicalize_binary(&s).is_empty();
            assert_eq!(blank, listed.contains(&n));
            assert_eq!(blank, s.trim().is_empty());
        }
    }
}

#[test]
fn argv_errors_are_exact() {
    assert_eq!(validate_argv(&[]), Err(PolicyError::EmptyArgv));
    assert_eq!(
        validate_argv(&strings(&["a", "b|c", "d;e"])),
        Err(PolicyError::Metacharacter { arg: "b|c".into() })
    );
    for c in [';', '|', '&', '`', '$', '>', '<', '\n', '\r'] {
        let arg = format!("x{}y", c);
        assert_eq!(
            validate_argv(&[arg.clone()]),
            Err(PolicyError::Metacharacter { arg })
        );
    }
    assert_eq!(validate_argv(&strings(&["(", ")", "*", "?", "\\", "\t", ""])), Ok(()));
}

#[test]
fn wildcard_entry_must_match_exactly() {
    assert!(allowlist_has_wildcard(&strings(&["/bin/ls", "*"])));
    assert!(!allowlist_has_wildcard(&strings(&["/bin/*", " *", "**"])));
    assert!(!allowlist_has_wildcard(&[]));
}

#[test]
fn wrappers_are_found_in_any_directory_and_case() {
    for arg in ["sudo", " SUDO ", "/opt/x/SuDo", "runas.EXE", "/usr/bin/pkexec", "/SU"] {
        assert_eq!(
            check_elevation_wrapper_denied(&strings(&[arg, "id"])),
            Err(PolicyError::ElevationWrapperForbidden { binary: arg.into() })
        );
    }
    for arg in ["pseudo", "/usr/bin/su/x", "sudo2", "C:\\runas.exe", ""] {
        assert_eq!(check_elevation_wrapper_denied(&strings(&[arg])), Ok(()));
    }
    assert_eq!(check_elevation_wrapper_denied(&[]), Ok(()));
}

#[test]
fn wrappers_are_found_behind_unicode_case() {
    // The Kelvin sign is a capital whose lower-case letter is the ASCII one.
    assert_eq!(
        check_elevation_wrapper_denied(&strings(&["p\u{212a}exec"])),
        Err(PolicyError::ElevationWrapperForbidden { binary: "p\u{212a}exec".into() })
    );
    assert_eq!(check_elevation_wrapper_denied(&strings(&["\u{3a3}udo"])), Ok(()));
    check_elevation_wrapper_denied(&strings(&["/\u{dc}BER/SUDO"])).unwrap_err();
}

#[test]
fn wrapper_name_is_matched_and_binary_reported() {
    assert_eq!(
        check_wrapper_name("Shown", "/x/doas"),
        Err(PolicyError::ElevationWrapperForbidden { binary: "Shown".into() })
    );
    assert_eq!(check_wrapper_name("sudo", "SUDO"), Ok(()));
}

#[test]
fn shell_policy_errors_are_exact() {
    let allowed = strings(&[" /usr/bin/uptime "]);
    assert_eq!(check_shell_policy(&strings(&["/usr/bin/uptime\t"]), &allowed), Ok(()));
    assert_eq!(
        check_shell_policy(&strings(&[" /bin/sh "]), &allowed),
        Err(PolicyError::BinaryNotAllowed { binary: "/bin/sh".into() })
    );
    assert_eq!(check_shell_policy(&strings(&["/bin/sh"]), &[]), Err(PolicyError::DenyAll));
    assert_eq!(check_shell_policy(&[], &[]), Err(PolicyError::EmptyArgv));
    assert_eq!(
        check_shell_policy(&strings(&["sudo"]), &strings(&["*"])),
        Err(PolicyError::ElevationWrapperForbidden { binary: "sudo".into() })
    );
    assert_eq!(
        check_shell_policy(&strings(&["sudo", "$x"]), &strings(&["*"])),
        Err(PolicyError::Metacharacter { arg: "$x".into() })
    );
}

#[test]
fn elevation_errors_are_exact() {
    let argv = strings(&["/usr/bin/apt"]);
    assert_eq!(check_elevation_policy(&argv, true, &strings(&["/usr/bin/apt"])), Ok(()));
    assert_eq!(check_elevation_policy(&argv, true, &strings(&["*"])), Ok(()));
    assert_eq!(
        check_elevation_policy(&argv, false, &strings(&["*"])),
        Err(PolicyError::ElevationDisabled)
    );
    assert_eq!(check_elevation_policy(&argv, true, &[]), Err(PolicyError::ElevationDenyAll));
    assert_eq!(
        check_elevation_policy(&argv, true, &strings(&["/usr/bin/dnf"])),
        Err(PolicyError::ElevationBinaryNotAllowed { binary: "/usr/bin/apt".into() })
    );
    assert_eq!(
        check_elevation_policy(&strings(&["sudo"]), false, &[]),
        Err(PolicyError::ElevationWrapperForbidden { binary: "sudo".into() })
    );
    assert_eq!(check_elevation_policy(&[], false, &[]), Err(PolicyError::EmptyArgv));
}

#[test]
fn elevation_is_shell_plus_switch() {
    let lists = [strings(&[]), strings(&["/bin/a"]), strings(&["*"])];
    let argvs = [strings(&[]), strings(&["/bin/a"]), strings(&["/bin/b"]), strings(&["su"])];
    for allowed in &lists {
        for argv in &argvs {
            let shell = check_shell_policy(argv, allowed).is_ok();
            assert_eq!(check_elevation_policy(argv, true, allowed).is_ok(), shell);
            assert!(check_elevation_policy(argv, false, allowed).is_err());
        }
    }
}

#[test]
fn longer_allowlist_keeps_permissions() {
    check_shell_policy(&strings(&["/bin/a"]), &strings(&["/bin/b", "/bin/a"])).unwrap();
    check_cwd_policy("/a/b", &strings(&["/x", "/a"])).unwrap();
    check_env_keys(&strings(&["K"]), &strings(&["J", "K"])).unwrap();
}

// Environment.

#[test]
fn env_rules_are_exact() {
    assert_eq!(check_env_keys(&strings(&["LANG", "TERM"]), &strings(&["TERM", "LANG"])), Ok(()));
    assert_eq!(
        check_env_keys(&strings(&["LANG", "TERM"]), &strings(&["LANG"])),
        Err(PolicyError::EnvNotAllowed { key: "TERM".into() })
    );
    assert_eq!(
        check_env_keys(&strings(&["lang"]), &strings(&["LANG"])),
        Err(PolicyError::EnvNotAllowed { key: "lang".into() })
    );
    assert_eq!(
        check_env_keys(&strings(&["A"]), &[]),
        Err(PolicyError::EnvNotAllowed { key: "A".into() })
    );
    assert_eq!(check_env_keys(&[], &[]), Ok(()));
    for key in DANGEROUS_ENV_KEYS {
        for written in [key.to_string(), key.to_ascii_lowercase()] {
            assert_eq!(
                check_env_keys(&[written.clone()], &[written.clone(), "*".to_string()]),
                Err(PolicyError::DangerousEnv { key: written })
            );
        }
    }
    assert_eq!(check_env_keys(&strings(&["P\u{c4}TH", "PATH2"]), &strings(&["*"])), Ok(()));
}

#[test]
fn env_map_is_checked_whole() {
    let mut env = HashMap::new();
    for i in 0..50 {
        env.insert(format!("VAR_{}", i), "x".to_string());
    }
    let names: Vec<String> = env.keys().cloned().collect();
    assert_eq!(check_env_policy(&env, &names), Ok(()));
    assert_eq!(check_env_policy(&env, &strings(&["*"])), Ok(()));
    let fewer: Vec<String> = names.iter().filter(|n| *n != "VAR_17").cloned().collect();
    assert_eq!(
        check_env_policy(&env, &fewer),
        Err(PolicyError::EnvNotAllowed { key: "VAR_17".into() })
    );
    env.insert("bash_env".into(), "x".into());
    assert_eq!(
        check_env_policy(&env, &strings(&["*"])),
        Err(PolicyError::DangerousEnv { key: "bash_env".into() })
    );
    assert_eq!(check_env_policy(&HashMap::new(), &[]), Ok(()));
}

// Paths.

#[test]
fn paths_normalize() {
    for (path, normal) in [
        ("", ""),
        ("  ", ""),
        ("/", "/"),
        (" / ", "/"),
        ("//", ""),
        ("/tmp///", "/tmp"),
        (r"C:\Temp\", "C:/Temp"),
        (r"\\?\C:\Temp", "C:/Temp"),
        (r"\\.\pipe\x", "pipe/x"),
        (r"\\?\UNC\server\share\", "//server/share"),
        ("UNC/server", "//server"),
        (r"\\?\", ""),
        ("/a/./b", "/a/./b"),
    ] {
        assert_eq!(normalize_path(path), normal);
    }
}

#[test]
fn normal_forms_are_exact() {
    for (path, normal) in [
        ("", ""),
        (".", "."),
        (" . ", "."),
        ("./", ""),
        (r".\", ""),
        (r"./.\.", ""),
        ("/", "/"),
        ("//", ""),
        ("/a//b/./c/", "/a/b/c"),
        ("a/./b", "a/b"),
        (r".\a\b", "a/b"),
        (r"\\?\UNC\server\share", "/server/share"),
        (r"C:\a\.\b", "C:/a/b"),
        ("/a/...", "/a/..."),
        ("a/ /", "a/ "),
    ] {
        assert_eq!(normalize_path_no_traversal(path), Ok(normal.to_string()));
    }
    for path in ["..", "/..", r"a\..\b", "../x", " .. ", "x/.. ", r"\\?\.."] {
        assert_eq!(
            normalize_path_no_traversal(path),
            Err(PolicyError::PathTraversal { path: path.into() })
        );
    }
}

#[test]
fn raw_traversal_looks_at_components() {
    assert_eq!(reject_path_traversal("/a/..b/c.."), Ok(()));
    assert_eq!(reject_path_traversal(" .. "), Ok(()));
    assert_eq!(
        reject_path_traversal(r"a\.."),
        Err(PolicyError::PathTraversal { path: r"a\..".into() })
    );
}

#[test]
fn normal_forms_are_final() {
    for path in ["/a//b/.", "a/b/", r"C:\x\.\y", ".", "/", "", r"\\?\UNC\s\t"] {
        let once = normalize_path_no_traversal(path).unwrap();
        assert_eq!(normalize_path_no_traversal(&once), Ok(once.clone()));
    }
    // White space that comes to stand at the end is trimmed the second time.
    let once = normalize_path_no_traversal("a/ /").unwrap();
    assert_eq!(once, "a/ ");
    assert_eq!(normalize_path_no_traversal(&once), Ok("a".to_string()));
    // So is a share name that comes to stand in front taken for one.
    let once = normalize_path_no_traversal("./UNC/x").unwrap();
    assert_eq!(once, "UNC/x");
    assert_eq!(normalize_path_no_traversal(&once), Ok("/x".to_string()));
}

#[test]
fn separators_make_no_difference() {
    for path in [r"C:\a\b\", r"\\?\D:\x", r"a\.\b", r"\", r"a\..\b"] {
        let other = path.replace('\\', "/");
        assert_eq!(
            normalize_path_no_traversal(path).ok(),
            normalize_path_no_traversal(&other).ok()
        );
    }
}

#[test]
fn namespace_prefix_makes_no_difference() {
    for path in [r"C:\a\b\", "C:/x/./y ", r"UNC\server\share", "/", "", r"a\..\b"] {
        for prefix in [r"\\?\", r"\\.\"] {
            let whole = format!("{}{}", prefix, path);
            assert_eq!(normalize_path(&whole), normalize_path(path));
            assert_eq!(
                normalize_path_no_traversal(&whole).ok(),
                normalize_path_no_traversal(path).ok()
            );
        }
    }
    // Only by itself does a dot keep its form; it matches the same.
    assert_eq!(normalize_path_no_traversal(r"\\?\."), Ok(String::new()));
    assert!(cwd_matches_allowed("a", r"\\?\."));
    assert!(cwd_matches_allowed(r"\\?\.", "."));
}

#[test]
fn normal_forms_lead_down() {
    for path in ["/a//./b/", r"C:\.\x\\y\.", "a/./././b", r"\\?\UNC\s\\t", "/./."] {
        let normal = normalize_path_no_traversal(path).unwrap();
        assert!(!normal.contains('\\'));
        let steps = normal.strip_prefix('/').unwrap_or(&normal);
        if !steps.is_empty() {
            assert!(steps.split('/').all(|c| !c.is_empty() && c != "." && c != ".."));
        }
    }
}

#[test]
fn roots_admit_what_lies_below() {
    for (cwd, root, admitted) in [
        ("/tmp", "/tmp", true),
        ("/tmp/", " /tmp/. ", true),
        ("/tmp/a", "/tmp", true),
        ("/tmpfoo", "/tmp", false),
        ("/tmp", "/tmp/a", false),
        ("/Tmp", "/tmp", false),
        ("/anything", "/", true),
        ("relative", "/", true),
        (".", ".", true),
        ("./a", ".", true),
        ("a/b", ".", true),
        (".a", ".", true),
        ("./", ".", true),
        (".", "./", true),
        ("a", r".\", true),
        ("a", "a/./", true),
        ("/a", ".", false),
        ("/", ".", false),
        (r"C:\a", ".", false),
        ("c:", ".", false),
        ("", ".", false),
        (".", "a", false),
        (".", "/", true),
        ("", "/", false),
        ("/tmp", "", false),
        ("/tmp/..", "/", false),
        ("/tmp", "/..", false),
        (r"c:\WINDOWS", "C:/windows", true),
        (r"c:\WINDOWSX", "C:/windows", false),
        (r"D:\", "d:", true),
        ("C:/a", "/", true),
    ] {
        assert_eq!(cwd_matches_allowed(cwd, root), admitted);
    }
}

#[test]
fn drive_case_makes_no_difference() {
    for cwd in [r"C:\Windows\Temp\X", r"\\?\C:\WINDOWS\temp", r"E:\Windows"] {
        let plain = cwd_matches_allowed(cwd, "C:/Windows/TEMP");
        assert_eq!(cwd_matches_allowed(&cwd.to_ascii_lowercase(), "C:/Windows/TEMP"), plain);
        assert_eq!(cwd_matches_allowed(cwd, "c:/windows/temp"), plain);
    }
}

#[test]
fn current_dir_holds_relative_paths() {
    for root in [".", "./", r" .\ ", r"\\?\."] {
        let allowed = strings(&["/srv", root]);
        for cwd in [".", "./", "nested", "./nested", r".\nested\deep", "/srv/x"] {
            assert_eq!(check_cwd_policy(cwd, &allowed), Ok(()));
        }
        assert_eq!(
            check_cwd_policy("./..", &allowed),
            Err(PolicyError::PathTraversal { path: "./..".into() })
        );
        for cwd in ["/etc", "C:/x"] {
            assert_eq!(
                check_cwd_policy(cwd, &allowed),
                Err(PolicyError::CwdNotAllowed { cwd: cwd.into() })
            );
        }
    }
    assert_eq!(
        check_cwd_policy("./", &strings(&["nested"])),
        Err(PolicyError::CwdNotAllowed { cwd: String::new() })
    );
}

#[test]
fn directories_below_a_root_are_permitted() {
    for (cwd, root) in [
        ("./UNC/x/y", "./UNC/x"),
        ("./UNC/x", "./UNC/x"),
        ("./UNC/x", "."),
        ("/srv/x /", "/srv/x /"),
        ("./ x", "./ x"),
        // By the normal form.
        ("./UNC/x", "/x"),
        ("/srv/x /", "/srv/x"),
        ("./ x", "x"),
    ] {
        assert_eq!(check_cwd_policy(cwd, &strings(&["/nowhere", root])), Ok(()));
    }
    assert_eq!(
        check_cwd_policy("./UNC/x", &strings(&["./UNC/y", "/y"])),
        Err(PolicyError::CwdNotAllowed { cwd: "UNC/x".into() })
    );
}

#[test]
fn cwd_errors_are_exact() {
    let allowed = strings(&["/srv", "relative"]);
    assert_eq!(
        check_cwd_policy("/etc//x/.", &allowed),
        Err(PolicyError::CwdNotAllowed { cwd: "/etc/x".into() })
    );
    assert_eq!(
        check_cwd_policy(" /etc//x/ ", &[]),
        Err(PolicyError::CwdNotAllowed { cwd: "/etc//x".into() })
    );
    assert_eq!(
        check_cwd_policy("/srv/..", &strings(&["*"])),
        Err(PolicyError::PathTraversal { path: "/srv/..".into() })
    );
    assert_eq!(
        check_cwd_policy(" .. ", &allowed),
        Err(PolicyError::PathTraversal { path: " .. ".into() })
    );
    assert_eq!(check_cwd_policy("anywhere", &strings(&["*"])), Ok(()));
    assert_eq!(check_cwd_policy("relative/x", &allowed), Ok(()));
}

#[test]
fn policy_messages() {
    let s = || "it".to_string();
    for (error, message) in [
        (PolicyError::EmptyArgv, "argv must not be empty"),
        (PolicyError::Metacharacter { arg: s() }, "shell metacharacter in argument: it"),
        (PolicyError::DenyAll, "shell policy deny-all"),
        (PolicyError::BinaryNotAllowed { binary: s() }, "binary not allowed: it"),
        (PolicyError::CwdNotAllowed { cwd: s() }, "working directory not allowed: it"),
        (PolicyError::PathTraversal { path: s() }, "path traversal rejected: it"),
        (PolicyError::EnvNotAllowed { key: s() }, "environment variable not allowed: it"),
        (PolicyError::DangerousEnv { key: s() }, "dangerous environment variable blocked: it"),
        (
            PolicyError::ElevationWrapperForbidden { binary: s() },
            "elevation wrapper forbidden in argv: it; use elevated=true instead",
        ),
        (
            PolicyError::ElevationDisabled,
            "elevated execution is disabled for this identity",
        ),
        (PolicyError::ElevationDenyAll, "elevation policy deny-all"),
        (
            PolicyError::ElevationBinaryNotAllowed { binary: s() },
            "binary not allowed for elevated execution: it",
        ),
    ] {
        assert_eq!(error.message(), message);
    }
}
