use diary_app_lib::config::{
    default_aws_region_name, default_diary_bucket, default_diary_path, default_domain, default_host,
    default_n_db_workers, default_port, default_secret_path, diary_path_under, env_file_path,
    path_join, secret_path_under, ConfigInner,
};
use diary_app_lib::ssh::{
    remote_clear_command, remote_serialize_command, source_from_url, ssh_source, stdout_lines,
    SSHInstance, SshSource, UrlParts,
};

#[test]
fn defaults() {
    assert_eq!(default_diary_bucket(), "diary_bucket");
    assert_eq!(default_host(), "0.0.0.0");
    assert_eq!(default_port(), 3042);
    assert_eq!(default_domain(), "localhost");
    assert_eq!(default_n_db_workers(), 2);
    assert_eq!(default_aws_region_name(), "us-east-1");
}

#[test]
fn joining_paths() {
    assert_eq!(path_join("/home/u", "Dropbox"), "/home/u/Dropbox");
    assert_eq!(path_join("/home/u/", "Dropbox"), "/home/u/Dropbox");
    assert_eq!(path_join("", "Dropbox"), "Dropbox");
    assert_eq!(path_join("/home/u", "/etc"), "/etc");
    assert_eq!(diary_path_under("/home/u"), "/home/u/Dropbox/epistle");
    assert_eq!(secret_path_under("/home/u/.config"), "/home/u/.config/aws_app_rust/secret.bin");
    for (base, part) in [("/a/b", "c"), ("/a/b/", "c/d"), ("rel", "x"), ("/a", "/abs")] {
        let expected = std::path::Path::new(base).join(part);
        assert_eq!(path_join(base, part), expected.to_string_lossy());
    }
}

#[test]
fn default_paths_follow_the_environment() {
    if let Some(p) = default_diary_path() {
        assert!(p.ends_with("Dropbox/epistle"));
    }
    if let Some(p) = default_secret_path() {
        assert!(p.ends_with("aws_app_rust/secret.bin"));
    }
}

#[test]
fn environment_file_choice() {
    assert_eq!(env_file_path(true, Some("/cfg")), "config.env");
    assert_eq!(env_file_path(false, Some("/cfg")), "/cfg/diary_app_rust/config.env");
    assert_eq!(env_file_path(false, None), "./diary_app_rust/config.env");
}

#[test]
fn local_config_keeps_everything_else() {
    let mut c = ConfigInner::default();
    assert_eq!(c.port, 0);
    assert!(c.ssh_url.is_none());
    c.database_url = "postgresql://db".to_string();
    c.ssh_url = Some("ssh://u@h".to_string());
    c.port = 3042;
    let l = c.local_config("/tmp/x");
    assert_eq!(l.diary_path, "/tmp/x");
    assert!(l.ssh_url.is_none());
    assert_eq!(l.database_url, "postgresql://db");
    assert_eq!(l.port, 3042);
}

#[test]
fn ssh_hosts_from_urls() {
    match ssh_source(Some("ssh://ddboline@cloud.example.com:2222/")) {
        SshSource::Remote(s) => {
            assert_eq!((s.user.as_str(), s.host.as_str(), s.port), ("ddboline", "cloud.example.com", 2222));
        }
        other => panic!("unexpected {other:?}"),
    }
    match ssh_source(Some("ssh://me@host")) {
        SshSource::Remote(s) => assert_eq!((s.user.as_str(), s.host.as_str(), s.port), ("me", "host", 22)),
        other => panic!("unexpected {other:?}"),
    }
    assert!(matches!(ssh_source(None), SshSource::Skip));
    assert!(matches!(ssh_source(Some("not a url")), SshSource::Skip));
    assert!(matches!(ssh_source(Some("https://me@host")), SshSource::Skip));
    assert!(matches!(ssh_source(Some("ssh:relative")), SshSource::NoHost));
}

#[test]
fn ssh_arguments() {
    let plain = SSHInstance::new("u", "h", 22);
    assert_eq!(plain.get_ssh_str("/tmp/f"), "u@h:/tmp/f");
    assert_eq!(plain.get_ssh_username_host(), vec!["u@h".to_string()]);
    assert_eq!(plain.command_args("ls"), vec!["u@h".to_string(), "ls".to_string()]);
    let with_port = SSHInstance::new("u", "h", 2222);
    assert_eq!(with_port.get_ssh_str("/tmp/f"), "-p 2222 u@h:/tmp/f");
    assert_eq!(with_port.get_ssh_username_host(), vec!["-p".to_string(), "2222".to_string(), "u@h".to_string()]);
    assert_eq!(with_port.echoed_line("hello\n"), "ssh://u@hhello\n");
    let url = UrlParts { scheme: "ssh".to_string(), username: "a".to_string(), host: None, port: Some(1) };
    assert!(SSHInstance::from_url(&url).is_none());
    assert_eq!(remote_serialize_command(), "/usr/bin/diary-app-rust ser");
    assert_eq!(remote_clear_command(), "/usr/bin/diary-app-rust clear");
}

#[test]
fn remote_output_lines() {
    assert_eq!(stdout_lines(&b"".to_vec()), Some(vec![]));
    assert_eq!(stdout_lines(&b"a\nb".to_vec()), Some(vec!["a".to_string(), "b".to_string()]));
    assert_eq!(stdout_lines(&b"a\n".to_vec()), Some(vec!["a".to_string(), "".to_string()]));
    assert_eq!(stdout_lines(&"é\n".as_bytes().to_vec()), Some(vec!["é".to_string(), "".to_string()]));
    assert_eq!(stdout_lines(&vec![b'a', b'\n', 0xff]), None);
    assert_eq!(stdout_lines(&vec![0xff, b'\n', b'a']), None);
}

fn parts(scheme: &str, user: &str, host: Option<&str>, port: Option<u16>) -> UrlParts {
    UrlParts { scheme: scheme.to_string(), username: user.to_string(), host: host.map(str::to_string), port }
}

#[test]
fn ssh_source_from_parsed_urls() {
    assert!(matches!(source_from_url(None), SshSource::Skip));
    assert!(matches!(source_from_url(Some(parts("sftp", "u", Some("h"), None))), SshSource::Skip));
    assert!(matches!(source_from_url(Some(parts("ssh", "u", None, None))), SshSource::NoHost));
    match source_from_url(Some(parts("ssh", "u", Some("h"), Some(2200)))) {
        SshSource::Remote(s) => assert_eq!((s.user.as_str(), s.host.as_str(), s.port), ("u", "h", 2200)),
        other => panic!("unexpected {other:?}"),
    }
    match source_from_url(Some(parts("ssh", "", Some("h"), None))) {
        SshSource::Remote(s) => assert_eq!((s.user.as_str(), s.host.as_str(), s.port), ("", "h", 22)),
        other => panic!("unexpected {other:?}"),
    }
}

#[test]
fn remote_lines_join_back_to_the_output() {
    for out in ["", "a", "a\nb", "a\n", "\n\n", "é\nü\n"] {
        let lines = stdout_lines(&out.as_bytes().to_vec()).unwrap();
        if !out.is_empty() {
            assert_eq!(lines.join("\n"), out);
        }
    }
}
