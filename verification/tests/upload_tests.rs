use russh::keys::ssh_key::private::Ed25519Keypair;
use russh::keys::ssh_key::LineEnding;
use russh::keys::PrivateKey;
use vrcaster::types::{AuthKind, RemoteSpace, ServerProfile};
use vrcaster::upload::UploadStep;
use vrcaster::upload::{
    build_url, df_command, df_fits, file_name, join_remote, next_upload_step, parse_df_k,
    remote_space_from_df, resolve_private_key, shell_quote,
};

fn profile(prefix: &str, key: &str) -> ServerProfile {
    ServerProfile {
        id: "p".to_string(),
        name: "n".to_string(),
        host: "h".to_string(),
        port: 2222,
        username: "u".to_string(),
        auth_kind: AuthKind::Privatekey,
        private_key_path: Some("/k".to_string()),
        remote_dir: "/var/www/html".to_string(),
        url_prefix: prefix.to_string(),
        access_key: key.to_string(),
    }
}

#[test]
fn url_with_access_key() {
    assert_eq!(
        build_url(&profile("http://video.example.com", "k1"), "a_vrc.mp4"),
        "http://video.example.com/a_vrc.mp4?key=k1"
    );
    assert_eq!(build_url(&profile("http://h//", "z"), "f.mp4"), "http://h/f.mp4?key=z");
}

#[test]
fn remote_join() {
    assert_eq!(join_remote("/var/www/html", "x.mp4"), "/var/www/html/x.mp4");
    assert_eq!(join_remote("/var/www/html///", "x.mp4"), "/var/www/html/x.mp4");
    assert_eq!(join_remote("/", "x.mp4"), "/x.mp4");
}

#[test]
fn local_file_names() {
    assert_eq!(file_name("/tmp/out/a_vrc.mp4"), Ok("a_vrc.mp4".to_string()));
    assert_eq!(file_name("b.mp4"), Ok("b.mp4".to_string()));
    assert_eq!(file_name("/"), Err("无法从 / 解析文件名".to_string()));
    assert_eq!(file_name("x/.."), Err("无法从 x/.. 解析文件名".to_string()));
}

#[test]
fn resume_offsets() {
    assert_eq!(next_upload_step(None, 100), UploadStep::Rewrite);
    assert_eq!(next_upload_step(Some(0), 100), UploadStep::Append { offset: 0 });
    assert_eq!(next_upload_step(Some(40), 100), UploadStep::Append { offset: 40 });
    assert_eq!(next_upload_step(Some(100), 100), UploadStep::Done);
    assert_eq!(next_upload_step(Some(150), 100), UploadStep::Rewrite);
    assert_eq!(next_upload_step(None, 0), UploadStep::Rewrite);
    assert_eq!(next_upload_step(Some(0), 0), UploadStep::Done);
}

#[test]
fn shell_quoting() {
    assert_eq!(shell_quote("/var/www/html"), "'/var/www/html'");
    assert_eq!(shell_quote("it's"), "'it'\\''s'");
    assert_eq!(shell_quote(""), "''");
    assert_eq!(df_command("/srv/my dir"), "df -k '/srv/my dir'");
}

const DF: &str = "Filesystem     1K-blocks      Used Available Use% Mounted on\n/dev/sda1       41251136  12345678  26905458  32% /\n";

#[test]
fn df_output() {
    assert!(df_fits(DF));
    assert_eq!(parse_df_k(DF), Some((26905458 * 1024, 41251136 * 1024)));
    assert_eq!(
        remote_space_from_df(DF),
        Ok(RemoteSpace { free_bytes: 26905458 * 1024, total_bytes: 41251136 * 1024 })
    );
}

#[test]
fn df_output_with_wrapped_filesystem_name() {
    let out = "Filesystem 1K-blocks Used Available Use% Mounted on\n/dev/mapper/very-long-volume-name\r\n 1000 200 800 20% /srv\n";
    assert_eq!(parse_df_k(out), Some((800 * 1024, 1000 * 1024)));
}

#[test]
fn df_reads_the_last_data_line() {
    let out = "Filesystem 1K-blocks Used Available Use% Mounted on\n/dev/a 100 10 90 10% /\n/dev/b 200 20 180 10% /x";
    assert_eq!(parse_df_k(out), Some((184_320, 204_800)));
}

#[test]
fn df_output_without_numbers() {
    assert_eq!(parse_df_k("Filesystem 1K-blocks Used\n"), None);
    assert_eq!(parse_df_k(""), None);
    assert_eq!(parse_df_k("1 2 3\n"), None);
    assert_eq!(
        remote_space_from_df("df: /x: No such file or directory\n"),
        Err("无法解析 df 输出:\ndf: /x: No such file or directory\n".to_string())
    );
}

#[test]
fn df_overflow_is_detected() {
    let out = "h\n/dev/x 18446744073709551 1 18446744073709551 1% /\n";
    assert!(!df_fits(out));
    let big = "h\n/dev/x 99999999999999999999 1 2 3\n";
    assert!(df_fits(big));
    assert_eq!(parse_df_k(big), Some((3 * 1024, 1024)));
}

/// The word a POSIX shell makes of single-quoted text and backslash escapes.
fn shell_word(s: &str) -> String {
    let mut out = String::new();
    let mut quoted = false;
    let mut it = s.chars();
    while let Some(c) = it.next() {
        if quoted {
            if c == '\'' {
                quoted = false;
            } else {
                out.push(c);
            }
        } else if c == '\'' {
            quoted = true;
        } else if c == '\\' {
            match it.next() {
                Some(d) => out.push(d),
                None => out.push(c),
            }
        } else {
            out.push(c);
        }
    }
    out
}

#[test]
fn shell_quoting_reads_back() {
    for s in ["/var/www/html", "it's", "''", "a b\tc", "\\'\\", ""] {
        assert_eq!(shell_word(&shell_quote(s)), s);
    }
}

#[test]
fn plain_names_and_parent_paths() {
    assert_eq!(file_name("电影 1_vrc.mp4"), Ok("电影 1_vrc.mp4".to_string()));
    assert_eq!(file_name(".."), Err("无法从 .. 解析文件名".to_string()));
    assert_eq!(file_name("/srv/a/.."), Err("无法从 /srv/a/.. 解析文件名".to_string()));
}

#[test]
fn private_key_from_the_path_text() {
    let key = PrivateKey::from(Ed25519Keypair::from_seed(&[7u8; 32]));
    let text = key.to_openssh(LineEnding::LF).unwrap();
    let decoded = resolve_private_key(&text, None, Err("No such file".to_string())).unwrap();
    assert_eq!(decoded.public_key(), key.public_key());
    let loaded = resolve_private_key("/k/id", None, Ok(key.clone())).unwrap();
    assert_eq!(loaded.public_key(), key.public_key());
    assert_eq!(
        resolve_private_key("/no/such/key", Some("pw"), Err("No such file".to_string())).err(),
        Some("加载私钥 /no/such/key 失败: No such file".to_string())
    );
}

#[test]
fn file_names_of_portable_paths() {
    assert_eq!(file_name("/v/a.mp4"), Ok("a.mp4".to_string()));
    assert_eq!(file_name("out/a.mp4/.//"), Ok("a.mp4".to_string()));
    assert_eq!(file_name("../x.mp4"), Ok("x.mp4".to_string()));
    assert_eq!(file_name("a/b/../"), Err("无法从 a/b/../ 解析文件名".to_string()));
    assert_eq!(file_name("./"), Err("无法从 ./ 解析文件名".to_string()));
    assert_eq!(file_name(""), Err("无法从  解析文件名".to_string()));
}
