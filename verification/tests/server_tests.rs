use vrcaster::server::{deploy_steps, escape_nginx_string, format_step, gen_nginx_conf, DeployLog, ExecOutput};
use vrcaster::types::{AuthKind, ServerProfile};

fn profile(key: &str, dir: &str) -> ServerProfile {
    ServerProfile {
        id: "p1".to_string(),
        name: "home".to_string(),
        host: "example.org".to_string(),
        port: 22,
        username: "root".to_string(),
        auth_kind: AuthKind::Password,
        private_key_path: None,
        remote_dir: dir.to_string(),
        url_prefix: "http://example.org".to_string(),
        access_key: key.to_string(),
    }
}

#[test]
fn nginx_conf_text() {
    let conf = gen_nginx_conf(&profile("abc123", "/var/www/html"));
    let expected = format!(
        "map $arg_key $vrc_key_ok {{\n    \
default 0;\n    \
\"{key}\" 1;\n\
}}\n\
\n\
server {{\n    \
listen 80 default_server;\n    \
listen [::]:80 default_server;\n    \
root {root};\n    \
server_name _;\n\
\n    \
location ~ \\.mp4$ {{\n        \
if ($vrc_key_ok = 0) {{\n            \
return 403;\n        \
}}\n    \
}}\n\
\n    \
location / {{\n        \
try_files $uri $uri/ =404;\n    \
}}\n\
}}\n",
        key = "abc123",
        root = "/var/www/html",
    );
    assert_eq!(conf, expected);
}

#[test]
fn nginx_conf_escapes_key_and_root() {
    let conf = gen_nginx_conf(&profile("a\"b\\c", "/srv/my \"dir\""));
    assert!(conf.contains("    \"a\\\"b\\\\c\" 1;\n"));
    assert!(conf.contains("    root /srv/my \\\"dir\\\";\n"));
}

#[test]
fn nginx_string_escaping() {
    assert_eq!(escape_nginx_string("plain"), "plain");
    assert_eq!(escape_nginx_string("\\\""), "\\\\\\\"");
    assert_eq!(escape_nginx_string(""), "");
    assert_eq!(escape_nginx_string("a\nb\r"), "a\\nb\\r");
    assert_eq!(escape_nginx_string("tab\there"), "tab\there");
}

/// Reads the here-document of a command as a shell does: the lines after
/// the first one, up to the line equal to the terminator.
fn heredoc_of(cmd: &str, terminator: &str) -> Option<String> {
    let (_, rest) = cmd.split_once('\n')?;
    let mut body = String::new();
    for line in rest.split('\n') {
        if line == terminator {
            return Some(body);
        }
        body.push_str(line);
        body.push('\n');
    }
    None
}

#[test]
fn written_conf_is_the_conf_even_with_a_terminator_in_the_directory() {
    let p = profile("k\nVRC_NGINX_EOF", "/srv\nVRC_NGINX_EOF\ntouch /tmp/x");
    let conf = gen_nginx_conf(&p);
    assert!(conf.split('\n').all(|l| l != "VRC_NGINX_EOF"));
    assert!(conf.contains("    root /srv\\nVRC_NGINX_EOF\\ntouch /tmp/x;\n"));
    let steps = deploy_steps(&conf);
    assert_eq!(heredoc_of(&steps[2].command, "VRC_NGINX_EOF"), Some(format!("{}\n", conf)));
    let plain = gen_nginx_conf(&profile("abc", "/var/www/html"));
    let steps = deploy_steps(&plain);
    assert_eq!(heredoc_of(&steps[2].command, "VRC_NGINX_EOF"), Some(format!("{}\n", plain)));
}

#[test]
fn step_log_success_and_failure() {
    let ok = ExecOutput { exit_code: 0, output: "done\n\n".to_string() };
    assert_eq!(format_step("安装 nginx", "apt-get install", &ok), "===== 安装 nginx [成功] =====\n$ apt-get install\ndone\n");
    let bad = ExecOutput { exit_code: -1, output: String::new() };
    assert_eq!(format_step("t", "c", &bad), "===== t [失败(exit=-1)] =====\n$ c\n\n");
    let bad2 = ExecOutput { exit_code: 100, output: "E: x ".to_string() };
    assert_eq!(format_step("t", "c", &bad2), "===== t [失败(exit=100)] =====\n$ c\nE: x\n");
}

#[test]
fn step_log_keeps_last_2000_bytes() {
    let long = "a".repeat(2500);
    let s = format_step("t", "c", &ExecOutput { exit_code: 0, output: long });
    assert_eq!(s, format!("===== t [成功] =====\n$ c\n...(已截断)\n{}\n", "a".repeat(2000)));
    // 3-byte characters: the cut falls on a character boundary.
    let wide = "中".repeat(700);
    let s = format_step("t", "c", &ExecOutput { exit_code: 0, output: wide });
    assert_eq!(s, format!("===== t [成功] =====\n$ c\n...(已截断)\n{}\n", "中".repeat(666)));
    let exact = "b".repeat(2000);
    let s = format_step("t", "c", &ExecOutput { exit_code: 0, output: exact.clone() });
    assert_eq!(s, format!("===== t [成功] =====\n$ c\n{}\n", exact));
}

#[test]
fn deployment_steps() {
    let steps = deploy_steps("CONF");
    assert_eq!(steps.len(), 7);
    assert_eq!(steps[0].title, "apt 更新软件源");
    assert_eq!(steps[1].command, "export DEBIAN_FRONTEND=noninteractive; apt-get install -y -qq nginx");
    assert_eq!(
        steps[2].command,
        "cat > /etc/nginx/sites-enabled/default <<'VRC_NGINX_EOF'\nCONF\nVRC_NGINX_EOF"
    );
    assert_eq!(steps[3].command, "nginx -t");
    assert_eq!(steps[4].command, "systemctl enable --now nginx");
    assert_eq!(steps[5].command, "systemctl reload nginx");
    assert_eq!(steps[6].title, "查询 nginx 状态");
    assert_eq!(steps[6].command, "systemctl is-active nginx");
}

#[test]
fn deployment_stops_after_a_failed_step() {
    let steps = deploy_steps("C");
    let codes = [0, 0, 0, 1, 0, 0, 0];
    let mut log = DeployLog::new();
    let mut ran = 0;
    for (i, step) in steps.iter().enumerate() {
        if log.should_run() {
            ran += 1;
            log.record(step, &ExecOutput { exit_code: codes[i], output: String::new() });
        } else {
            log.skip(step);
        }
    }
    assert_eq!(ran, 4);
    let out = log.finish();
    let text = out.clone().unwrap_err();
    assert!(text.contains("===== 校验 nginx 配置 [失败(exit=1)] ====="));
    assert!(text.ends_with("\n[跳过] 查询 nginx 状态（前序步骤失败）\n"));
    assert_eq!(text.matches("[跳过]").count(), 3);

    let mut ok = DeployLog::new();
    for step in steps.iter() {
        ok.record(step, &ExecOutput { exit_code: 0, output: "ok".to_string() });
    }
    assert!(ok.finish().is_ok());
}

#[test]
fn url_key_matches_conf() {
    let p = profile("0123456789abcdef0123456789abcdef", "/var/www/html");
    let url = vrcaster::upload::build_url(&p, "movie_vrc.mp4");
    assert!(url.ends_with("?key=0123456789abcdef0123456789abcdef"));
    let conf = gen_nginx_conf(&p);
    assert!(conf.contains("\n    \"0123456789abcdef0123456789abcdef\" 1;\n"));
}

#[test]
fn escaped_nginx_strings_read_back() {
    for s in ["a\"b", "\\", "x\\\"y", "", "普通", "two\nlines\r"] {
        let e = escape_nginx_string(s);
        let mut out = String::new();
        let mut it = e.chars();
        while let Some(c) = it.next() {
            if c == '\\' {
                match it.next().unwrap() {
                    'n' => out.push('\n'),
                    'r' => out.push('\r'),
                    't' => out.push('\t'),
                    d => out.push(d),
                }
            } else {
                out.push(c);
            }
        }
        assert_eq!(out, s);
    }
}
