use hecate_lampad_shared::{
    auth_token_ok, begin_socket_permissions, begin_token_write, check_frame_lens, default_socket_path, encode_frame,
    generate_ipc_token, helper_binary_candidates, helper_package_installed, ipc_group_change,
    ipc_token_of, ipc_token_path, map_remote_error, new_request_id, read_ipc_token, request_id_of,
    DesktopIpcError, FileAction, FrameReader, FrameStep, GroupChange, IpcErrorBody, Platform,
    IPC_GROUP_NAME, MAX_HEADER_LEN, MAX_PAYLOAD_LEN,
};

#[test]
fn generate_ipc_token_is_64_hex_chars() {
    let token = generate_ipc_token();
    assert_eq!(token.len(), 64);
    assert!(token.chars().all(|c| c.is_ascii_hexdigit()));
}

#[test]
fn auth_token_ok_rejects_mismatch() {
    assert!(auth_token_ok(Some("abcd"), "abcd"));
    assert!(!auth_token_ok(Some("abce"), "abcd"));
    assert!(!auth_token_ok(None, "abcd"));
    assert!(!auth_token_ok(Some("abc"), "abcd"));
}

// Tokens and request ids.

#[test]
fn auth_tokens_compare_as_text() {
    assert!(auth_token_ok(Some(""), ""));
    assert!(!auth_token_ok(None, ""));
    assert!(auth_token_ok(Some("t\u{f6}ken"), "t\u{f6}ken"));
    assert!(!auth_token_ok(Some("t\u{f6}ken"), "tooken"));
    assert!(!auth_token_ok(Some("ABCD"), "abcd"));
}

#[test]
fn token_spells_its_bytes() {
    let mut bytes = [0u8; 32];
    bytes[0] = 0x01;
    bytes[1] = 0xaf;
    bytes[31] = 0xf0;
    let expected = format!("01af{}f0", "0".repeat(58));
    assert_eq!(ipc_token_of(bytes), expected);
    let mut other = bytes;
    other[7] = 1;
    assert_ne!(ipc_token_of(other), expected);
}

#[test]
fn generated_tokens_differ() {
    assert_ne!(generate_ipc_token(), generate_ipc_token());
}

#[test]
fn stored_token_is_trimmed() {
    assert_eq!(read_ipc_token(Some(" abc\n")).unwrap(), "abc");
    assert!(matches!(read_ipc_token(Some(" \n")), Err(DesktopIpcError::HelperUnavailable)));
    assert!(matches!(read_ipc_token(Some("")), Err(DesktopIpcError::HelperUnavailable)));
    assert!(matches!(read_ipc_token(None), Err(DesktopIpcError::HelperUnavailable)));
}

#[test]
fn generated_token_survives_its_file() {
    let token = generate_ipc_token();
    let read = read_ipc_token(Some(&token)).unwrap();
    assert_eq!(read, token);
    assert!(auth_token_ok(Some(&read), &token));
}

#[test]
fn request_id_spells_its_bytes() {
    let bytes = [
        0x67, 0xe5, 0x50, 0x44, 0x10, 0xb1, 0x42, 0x6f, 0x92, 0x47, 0xbb, 0x68, 0x0e, 0x5f, 0xe0,
        0xc8,
    ];
    assert_eq!(request_id_of(bytes), "67e55044-10b1-426f-9247-bb680e5fe0c8");
}

#[test]
fn request_ids_are_random_uuids() {
    for _ in 0..100 {
        let id: Vec<char> = new_request_id().chars().collect();
        assert_eq!(id.len(), 36);
        for (i, c) in id.iter().enumerate() {
            if [8, 13, 18, 23].contains(&i) {
                assert_eq!(*c, '-');
            } else {
                assert!(c.is_ascii_digit() || ('a'..='f').contains(c));
            }
        }
        assert_eq!(id[14], '4');
        assert!(['8', '9', 'a', 'b'].contains(&id[19]));
    }
    assert_ne!(new_request_id(), new_request_id());
}

// Frames.

fn read_all(stream: &[u8]) -> Result<Option<(Vec<u8>, Vec<u8>, usize)>, DesktopIpcError> {
    let mut reader = FrameReader::new();
    let mut pos = 0;
    loop {
        let n = reader.wanted();
        if stream.len() - pos < n {
            return Ok(None);
        }
        let chunk = stream[pos..pos + n].to_vec();
        pos += n;
        match reader.advance(chunk)? {
            FrameStep::Continue(next) => reader = next,
            FrameStep::Complete { header, payload } => return Ok(Some((header, payload, pos))),
        }
    }
}

#[test]
fn frame_bytes_are_exact() {
    assert_eq!(
        encode_frame(b"hi", b"xyz").unwrap(),
        vec![2, 0, 0, 0, b'h', b'i', 3, 0, 0, 0, b'x', b'y', b'z']
    );
    assert_eq!(encode_frame(&[], &[]).unwrap(), vec![0; 8]);
    let long = vec![7u8; 0x010203];
    let frame = encode_frame(&[], &long).unwrap();
    assert_eq!(&frame[4..8], &[3, 2, 1, 0]);
    assert_eq!(frame.len(), 8 + 0x010203);
}

#[test]
fn frames_read_back() {
    for (header, payload) in [
        (b"".to_vec(), b"".to_vec()),
        (b"{}".to_vec(), b"".to_vec()),
        (b"".to_vec(), b"p".to_vec()),
        (vec![1; 300], vec![2; 70000]),
    ] {
        let mut stream = encode_frame(&header, &payload).unwrap();
        let len = stream.len();
        stream.extend_from_slice(b"next");
        assert_eq!(read_all(&stream).unwrap(), Some((header, payload, len)));
        for cut in [0, 3, 4, 7, len - 1] {
            if cut < len {
                assert_eq!(read_all(&stream[..cut]).unwrap(), None);
            }
        }
    }
}

#[test]
fn reader_refuses_long_parts() {
    let too_long = (MAX_HEADER_LEN as u32 + 1).to_le_bytes();
    match read_all(&too_long) {
        Err(DesktopIpcError::Protocol(m)) => assert_eq!(m, "header too large"),
        _ => panic!("accepted"),
    }
    let mut stream = vec![1, 0, 0, 0, b'h'];
    stream.extend_from_slice(&(MAX_PAYLOAD_LEN as u32 + 1).to_le_bytes());
    match read_all(&stream) {
        Err(DesktopIpcError::Protocol(m)) => assert_eq!(m, "payload too large"),
        _ => panic!("accepted"),
    }
    assert_eq!(MAX_HEADER_LEN, 16 * 1024 * 1024);
    assert_eq!(MAX_PAYLOAD_LEN, 64 * 1024 * 1024);
    let longest = (MAX_HEADER_LEN as u32).to_le_bytes().to_vec();
    match FrameReader::new().advance(longest).unwrap() {
        FrameStep::Continue(next) => assert_eq!(next.wanted(), MAX_HEADER_LEN),
        FrameStep::Complete { .. } => panic!("complete"),
    }
}

#[test]
fn written_frame_beyond_the_limit_is_refused() {
    let frame = encode_frame(&vec![0u8; MAX_HEADER_LEN + 1], &[]).unwrap();
    assert!(matches!(read_all(&frame), Err(DesktopIpcError::Protocol(_))));
}

#[test]
fn frame_too_large_is_refused() {
    let limit = u32::MAX as usize;
    check_frame_lens(limit, limit).unwrap();
    for (header_len, payload_len) in [(limit + 1, 0), (0, limit + 1)] {
        match check_frame_lens(header_len, payload_len) {
            Err(DesktopIpcError::Protocol(m)) => assert_eq!(m, "frame too large"),
            _ => panic!("accepted"),
        }
    }
}

// Errors.

fn body(code: &str) -> IpcErrorBody {
    IpcErrorBody { code: code.into(), message: "why".into() }
}

#[test]
fn remote_errors_map() {
    assert!(matches!(
        map_remote_error(&body("helper_unavailable")),
        DesktopIpcError::HelperUnavailable
    ));
    assert!(matches!(map_remote_error(&body("unauthorized")), DesktopIpcError::HelperUnavailable));
    match map_remote_error(&body("no_active_gui_session")) {
        DesktopIpcError::NoActiveGuiSession(m) => assert_eq!(m, "why"),
        _ => panic!("mapped otherwise"),
    }
    match map_remote_error(&body("display_unsupported")) {
        DesktopIpcError::DisplayUnsupported(m) => assert_eq!(m, "why"),
        _ => panic!("mapped otherwise"),
    }
    match map_remote_error(&body("busy")) {
        DesktopIpcError::Remote(m) => assert_eq!(m, "busy: why"),
        _ => panic!("mapped otherwise"),
    }
}

#[test]
fn ipc_messages() {
    let s = || "it".to_string();
    for (error, message) in [
        (
            DesktopIpcError::HelperUnavailable,
            "helper_unavailable: desktop helper is not connected",
        ),
        (DesktopIpcError::NoActiveGuiSession(s()), "no_active_gui_session: it"),
        (DesktopIpcError::DisplayUnsupported(s()), "display_unsupported: it"),
        (DesktopIpcError::InvalidResponse(s()), "invalid response: it"),
        (DesktopIpcError::Protocol(s()), "ipc protocol error: it"),
        (DesktopIpcError::Remote(s()), "it"),
    ] {
        assert_eq!(error.message(), message);
    }
    let io = std::io::Error::new(std::io::ErrorKind::Other, "disk on fire");
    assert_eq!(DesktopIpcError::from(io).message(), "ipc io error: disk on fire");
}

// Places.

const PLATFORMS: [Platform; 5] = [
    Platform::Linux,
    Platform::MacOs,
    Platform::Windows,
    Platform::OtherUnix,
    Platform::Other,
];

#[test]
fn socket_paths() {
    let paths: Vec<&str> = PLATFORMS.iter().map(|p| default_socket_path(*p)).collect();
    assert_eq!(
        paths,
        vec![
            "/run/hecate-lampad/desktop.sock",
            "/var/run/hecate-lampad/desktop.sock",
            r"\\.\pipe\hecate-lampad-desktop",
            "/tmp/hecate-lampad-desktop.sock",
            "/tmp/hecate-lampad-desktop.sock",
        ]
    );
    assert_eq!(IPC_GROUP_NAME, "hecate-ipc");
}

#[test]
fn helper_places() {
    assert_eq!(
        helper_binary_candidates(Platform::Windows),
        [
            r"C:\Program Files\hecate-lampad-desktop\hecate-lampad-desktop.exe",
            r"C:\Program Files\hecate-lampad\hecate-lampad-desktop.exe",
        ]
    );
    for platform in [Platform::Linux, Platform::MacOs, Platform::OtherUnix, Platform::Other] {
        assert_eq!(
            helper_binary_candidates(platform),
            ["/usr/bin/hecate-lampad-desktop", "/usr/local/bin/hecate-lampad-desktop"]
        );
    }
    for platform in PLATFORMS {
        assert!(!helper_package_installed(platform, &[]));
        assert!(!helper_package_installed(platform, &["/usr/bin/other".to_string()]));
        for place in helper_binary_candidates(platform) {
            assert!(helper_package_installed(platform, &["x".to_string(), place.to_string()]));
        }
    }
}

#[test]
fn token_path_beside_socket() {
    let socket = default_socket_path(Platform::Linux);
    assert_eq!(
        ipc_token_path(Platform::Linux, socket, Some("ignored")),
        "/run/hecate-lampad/ipc.token"
    );
    assert_eq!(ipc_token_path(Platform::MacOs, "x.sock", None), "ipc.token");
}

#[test]
fn token_path_follows_unix_path_rules() {
    // Every path of up to seven characters over these, and a few longer ones.
    let alphabet = ['/', '.', 'a'];
    let mut paths = vec![String::new()];
    let mut last = paths.clone();
    for _ in 0..7 {
        let mut next = Vec::new();
        for p in &last {
            for c in alphabet {
                next.push(format!("{}{}", p, c));
            }
        }
        paths.extend(next.iter().cloned());
        last = next;
    }
    for p in ["/tmp/\u{e4}/s.sock", "a\\b/c\\d", "/a/../b/./c//", ".hidden/..x", "/run/x/.sock"] {
        paths.push(p.to_string());
    }
    for p in &paths {
        let expected = std::path::Path::new(p).with_file_name("ipc.token");
        assert_eq!(
            ipc_token_path(Platform::Linux, p, None).as_str(),
            expected.to_str().unwrap()
        );
    }
}

#[test]
fn sockets_of_a_directory_share_a_token_file() {
    for (a, b, token) in [
        (
            "/run/hecate-lampad/desktop.sock",
            "/run/hecate-lampad//other.sock/.",
            "/run/hecate-lampad/ipc.token",
        ),
        ("/a", "/b/", "/ipc.token"),
        ("a", "b", "ipc.token"),
        ("./a", "./b", "./ipc.token"),
        ("../a", ".././b", "../ipc.token"),
    ] {
        for socket in [a, b] {
            assert_eq!(ipc_token_path(Platform::Linux, socket, None), token);
            let parent = std::path::Path::new(socket).parent().unwrap();
            assert_eq!(parent.join("ipc.token").to_str().unwrap(), token);
        }
        assert_eq!(ipc_token_path(Platform::Linux, token, None), token);
    }
    // Without a file name the same path may come back spelled otherwise.
    assert_eq!(ipc_token_path(Platform::Linux, "//", None), "//ipc.token");
    assert_eq!(ipc_token_path(Platform::Linux, "//ipc.token", None), "/ipc.token");
}

#[test]
fn parents_may_be_spelled_differently() {
    let a = ipc_token_path(Platform::Linux, "/run//x/./a.sock", None);
    let b = ipc_token_path(Platform::Linux, "/run/x/b.sock", None);
    assert_eq!(a, "/run//x/ipc.token");
    assert_eq!(b, "/run/x/ipc.token");
    assert_eq!(std::path::Path::new(&a), std::path::Path::new(&b));
    for path in ["//", "/a/..", ".//", "", "./", "..", "a/b/."] {
        let once = ipc_token_path(Platform::Linux, path, None);
        let twice = ipc_token_path(Platform::Linux, &once, None);
        assert_eq!(std::path::Path::new(&once), std::path::Path::new(&twice));
    }
}

#[test]
fn token_path_below_program_data() {
    for (base, given) in [
        (r"C:\ProgramData", None),
        (r"D:\Data", Some(r"D:\Data")),
        ("E:/x", Some("E:/x")),
    ] {
        let path = ipc_token_path(Platform::Windows, "ignored", given);
        assert!(path.starts_with(base));
        let rest: String = path[base.len()..].replace('\\', "/");
        assert_eq!(rest, "/hecate-lampad/ipc.token");
    }
    let path = ipc_token_path(Platform::Windows, "ignored", Some("/slash/"));
    assert_eq!(path.replace('\\', "/"), "/slash/hecate-lampad/ipc.token");
    let path = ipc_token_path(Platform::Windows, "ignored", Some(r"D:\"));
    assert!(path == r"D:\hecate-lampad\ipc.token" || path == r"D:\/hecate-lampad/ipc.token");
    let path = ipc_token_path(Platform::Windows, "ignored", Some(""));
    assert_eq!(path.replace('\\', "/"), "hecate-lampad/ipc.token");
    let path = ipc_token_path(Platform::Windows, "ignored", Some(r"\\?\D:\Data"));
    assert!(path.starts_with(r"\\?\D:\Data"));
    assert!(path.replace('\\', "/").ends_with("/hecate-lampad/ipc.token"));
}

// The order of work.

fn run(platform: Platform, start: FileAction, failing: &[FileAction]) -> Vec<FileAction> {
    let mut all = vec![start];
    loop {
        let last = all[all.len() - 1];
        if last == FileAction::Done || last == FileAction::Fail {
            return all;
        }
        all.push(last.next(platform, !failing.contains(&last)));
    }
}

#[test]
fn token_write_on_unix() {
    let create = FileAction::CreateNew { initial_mode: Some(0o640), no_follow: true };
    let mode = FileAction::SetMode { mode: 0o640 };
    for platform in [Platform::Linux, Platform::MacOs, Platform::OtherUnix] {
        assert_eq!(
            run(platform, begin_token_write(true), &[]),
            vec![
                FileAction::CreateParent,
                FileAction::Probe,
                FileAction::Remove,
                create,
                FileAction::Write,
                FileAction::Sync,
                mode,
                FileAction::SetGroup,
                FileAction::Done,
            ]
        );
        let tolerated = [FileAction::Probe, FileAction::Remove, FileAction::SetGroup];
        assert_eq!(
            run(platform, begin_token_write(false), &tolerated),
            vec![
                FileAction::Probe,
                create,
                FileAction::Write,
                FileAction::Sync,
                mode,
                FileAction::SetGroup,
                FileAction::Done,
            ]
        );
        for fatal in [FileAction::CreateParent, create, FileAction::Write, FileAction::Sync, mode] {
            let all = run(platform, begin_token_write(true), &[fatal]);
            assert_eq!(&all[all.len() - 2..], &[fatal, FileAction::Fail]);
        }
    }
}

#[test]
fn failed_removal_is_tolerated() {
    let all = run(Platform::Linux, begin_token_write(true), &[FileAction::Remove]);
    assert_eq!(all[all.len() - 1], FileAction::Done);
}

#[test]
fn token_write_elsewhere() {
    assert_eq!(
        run(Platform::Windows, begin_token_write(true), &[FileAction::Probe]),
        vec![
            FileAction::CreateParent,
            FileAction::Probe,
            FileAction::CreateNew { initial_mode: None, no_follow: true },
            FileAction::Write,
            FileAction::Sync,
            FileAction::RestrictAcl,
            FileAction::Done,
        ]
    );
    assert_eq!(
        run(Platform::Windows, FileAction::Sync, &[FileAction::RestrictAcl]),
        vec![FileAction::Sync, FileAction::RestrictAcl, FileAction::Fail]
    );
    assert_eq!(
        run(Platform::Other, FileAction::Remove, &[]),
        vec![
            FileAction::Remove,
            FileAction::CreateNew { initial_mode: None, no_follow: false },
            FileAction::Write,
            FileAction::Sync,
            FileAction::Done,
        ]
    );
}

#[test]
fn socket_permissions() {
    let mode = FileAction::SetMode { mode: 0o660 };
    assert_eq!(
        run(Platform::Linux, begin_socket_permissions(Platform::Linux), &[FileAction::SetGroup]),
        vec![mode, FileAction::SetGroup, FileAction::Done]
    );
    assert_eq!(
        run(Platform::MacOs, begin_socket_permissions(Platform::MacOs), &[mode]),
        vec![mode, FileAction::Fail]
    );
    for platform in [Platform::Windows, Platform::Other] {
        assert_eq!(begin_socket_permissions(platform), FileAction::Done);
    }
}

#[test]
fn group_changes() {
    assert_eq!(ipc_group_change(None, b"/a\0b"), GroupChange::Leave);
    assert_eq!(ipc_group_change(Some(7), b"/a\0b"), GroupChange::InvalidPath);
    assert_eq!(
        ipc_group_change(Some(7), b"/a/b"),
        GroupChange::Chown { uid: u32::MAX, gid: 7 }
    );
}
