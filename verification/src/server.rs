//! nginx configuration with `?key=` access control, and the steps and log of
//! the one-click deployment over SSH.

use vstd::prelude::*;
use crate::encode::views;
use crate::num::{dec_signed, push_dec_signed};
use crate::text::{
    chars_of, expand, lemma_expand_front, lemma_expand_take_step, lemma_split_once_at,
    lemma_split_once_none, lemma_split_once_parts, lemma_unlines_push, push_char, push_chars,
    push_str, split_once, sub_chars, trim_end, trim_end_chars, unlines,
};
use crate::types::{credentials_follow_profile, AuthKind, Credentials, ServerProfile};
use crate::upload::spec_build_url;

verus! {

// ---------------------------------------------------------------------------
// nginx configuration
// ---------------------------------------------------------------------------

/// How one character is written inside an nginx string: `\` and `"` behind
/// a backslash, and line breaks as `\n` and `\r`, so that the escaped text
/// stays on one line.
pub open spec fn nginx_escape_char(c: char) -> Seq<char> {
    if c == '\\' || c == '"' {
        seq!['\\', c]
    } else if c == '\n' {
        seq!['\\', 'n']
    } else if c == '\r' {
        seq!['\\', 'r']
    } else {
        seq![c]
    }
}

/// `s` with `\`, `"`, newlines and carriage returns escaped.
pub open spec fn spec_escape_nginx_string(s: Seq<char>) -> Seq<char> {
    expand(s, |c: char| nginx_escape_char(c))
}

/// Escapes text for an nginx string: backslashes, double quotes and line
/// breaks.
pub fn escape_nginx_string(s: &str) -> (r: String)
    ensures
        r@ == spec_escape_nginx_string(s@),
{
    let v = chars_of(s);
    let mut out = String::new();
    let ghost f = |c: char| nginx_escape_char(c);
    let mut i: usize = 0;
    while i < v.len()
        invariant
            i <= v.len(),
            v@ == s@,
            f == (|c: char| nginx_escape_char(c)),
            out@ == expand(v@.take(i as int), f),
        decreases v.len() - i,
    {
        let c = v[i];
        if c == '\\' || c == '"' {
            push_char(&mut out, '\\');
            push_char(&mut out, c);
        } else if c == '\n' {
            push_char(&mut out, '\\');
            push_char(&mut out, 'n');
        } else if c == '\r' {
            push_char(&mut out, '\\');
            push_char(&mut out, 'r');
        } else {
            push_char(&mut out, c);
        }
        proof {
            lemma_expand_take_step(v@, i as int, f);
        }
        i = i + 1;
        assert(out@ =~= expand(v@.take(i as int), f));
    }
    assert(v@.take(v.len() as int) =~= v@);
    out
}

/// The character that nginx reads for a backslash followed by `c`, when
/// that pair is one of its escapes.
pub open spec fn nginx_escaped(c: char) -> Option<char> {
    if c == '"' || c == '\'' || c == '\\' {
        Some(c)
    } else if c == 'n' {
        Some('\n')
    } else if c == 'r' {
        Some('\r')
    } else if c == 't' {
        Some('\t')
    } else {
        None
    }
}

/// How nginx reads the characters of a configuration token: `\"`, `\'`,
/// `\\`, `\n`, `\r` and `\t` stand for one character each; any other
/// backslash is kept as it is.
pub open spec fn nginx_unescape(s: Seq<char>) -> Seq<char>
    decreases s.len(),
{
    if s.len() == 0 {
        Seq::empty()
    } else if s[0] == '\\' && s.len() >= 2 && nginx_escaped(s[1]) is Some {
        seq![nginx_escaped(s[1])->0] + nginx_unescape(s.subrange(2, s.len() as int))
    } else {
        seq![s[0]] + nginx_unescape(s.drop_first())
    }
}

/// nginx reads an escaped string back as the text itself.
pub proof fn lemma_escape_nginx_string_roundtrip(s: Seq<char>)
    ensures
        nginx_unescape(spec_escape_nginx_string(s)) == s,
    decreases s.len(),
{
    let f = |c: char| nginx_escape_char(c);
    if s.len() > 0 {
        lemma_expand_front(s, f);
        lemma_escape_nginx_string_roundtrip(s.drop_first());
        let rest = expand(s.drop_first(), f);
        let e = f(s[0]) + rest;
        if s[0] == '\\' || s[0] == '"' || s[0] == '\n' || s[0] == '\r' {
            assert(e[0] == '\\' && nginx_escaped(e[1]) == Some(s[0]));
            assert(e.subrange(2, e.len() as int) =~= rest);
        } else {
            assert(e[0] == s[0]);
            assert(e.drop_first() =~= rest);
        }
        assert(seq![s[0]] + s.drop_first() =~= s);
    } else {
        assert(expand(s, f) =~= Seq::<char>::empty());
    }
}

/// Escaped text holds no line break.
pub proof fn lemma_escape_nginx_string_one_line(s: Seq<char>)
    ensures
        forall|i: int|
            0 <= i < spec_escape_nginx_string(s).len() ==> #[trigger] spec_escape_nginx_string(
                s,
            )[i] != '\n' && spec_escape_nginx_string(s)[i] != '\r',
    decreases s.len(),
{
    let f = |c: char| nginx_escape_char(c);
    if s.len() > 0 {
        lemma_escape_nginx_string_one_line(s.drop_last());
        let a = expand(s.drop_last(), f);
        let b = f(s.last());
        assert(spec_escape_nginx_string(s) == a + b);
        assert forall|i: int| 0 <= i < (a + b).len() implies #[trigger] (a + b)[i] != '\n' && (a
            + b)[i] != '\r' by {
            if i < a.len() {
                assert((a + b)[i] == spec_escape_nginx_string(s.drop_last())[i]);
            } else {
                assert((a + b)[i] == b[i - a.len()]);
            }
        }
    }
}

/// The server configuration, line by line, for the escaped access key and
/// the escaped web root: `.mp4` files are served only when the `key` query
/// argument equals the access key; everything else is served from the
/// remote directory.
pub open spec fn nginx_conf_lines(key: Seq<char>, root: Seq<char>) -> Seq<Seq<char>> {
    seq![
        "map $arg_key $vrc_key_ok {"@,
        "    default 0;"@,
        "    \""@ + key + "\" 1;"@,
        "}"@,
        Seq::empty(),
        "server {"@,
        "    listen 80 default_server;"@,
        "    listen [::]:80 default_server;"@,
        "    root "@ + root + ";"@,
        "    server_name _;"@,
        Seq::empty(),
        "    location ~ \\.mp4$ {"@,
        "        if ($vrc_key_ok = 0) {"@,
        "            return 403;"@,
        "        }"@,
        "    }"@,
        Seq::empty(),
        "    location / {"@,
        "        try_files $uri $uri/ =404;"@,
        "    }"@,
        "}"@,
    ]
}

/// The configuration text: its lines, each ended by a newline, with the
/// access key and the remote directory escaped.
pub open spec fn spec_gen_nginx_conf(access_key: Seq<char>, remote_dir: Seq<char>) -> Seq<char> {
    unlines(
        nginx_conf_lines(spec_escape_nginx_string(access_key), spec_escape_nginx_string(remote_dir)),
    )
}

fn join_lines(v: &Vec<String>) -> (r: String)
    ensures
        r@ == unlines(views(v@)),
{
    let mut r = String::new();
    let mut i: usize = 0;
    while i < v.len()
        invariant
            i <= v.len(),
            r@ == unlines(views(v@).take(i as int)),
        decreases v.len() - i,
    {
        proof {
            lemma_unlines_push(views(v@).take(i as int), v@[i as int]@);
            assert(views(v@).take(i + 1) =~= views(v@).take(i as int).push(v@[i as int]@));
        }
        push_str(&mut r, v[i].as_str());
        push_char(&mut r, '\n');
        i = i + 1;
    }
    assert(views(v@).take(v.len() as int) =~= views(v@));
    r
}

fn line_around(before: &str, middle: &str, after: &str) -> (r: String)
    ensures
        r@ == before@ + middle@ + after@,
{
    let mut l = String::new();
    push_str(&mut l, before);
    push_str(&mut l, middle);
    push_str(&mut l, after);
    l
}

/// Generates the nginx server block with `?key=` access control
/// (`map $arg_key` plus `location ~ \.mp4$`).
pub fn gen_nginx_conf(profile: &ServerProfile) -> (r: String)
    ensures
        r@ == spec_gen_nginx_conf(profile.access_key@, profile.remote_dir@),
{
    let key = escape_nginx_string(profile.access_key.as_str());
    let root = escape_nginx_string(profile.remote_dir.as_str());
    let mut v: Vec<String> = Vec::new();
    v.push(String::from_str("map $arg_key $vrc_key_ok {"));
    v.push(String::from_str("    default 0;"));
    v.push(line_around("    \"", key.as_str(), "\" 1;"));
    v.push(String::from_str("}"));
    v.push(String::new());
    v.push(String::from_str("server {"));
    v.push(String::from_str("    listen 80 default_server;"));
    v.push(String::from_str("    listen [::]:80 default_server;"));
    v.push(line_around("    root ", root.as_str(), ";"));
    v.push(String::from_str("    server_name _;"));
    v.push(String::new());
    v.push(String::from_str("    location ~ \\.mp4$ {"));
    v.push(String::from_str("        if ($vrc_key_ok = 0) {"));
    v.push(String::from_str("            return 403;"));
    v.push(String::from_str("        }"));
    v.push(String::from_str("    }"));
    v.push(String::new());
    v.push(String::from_str("    location / {"));
    v.push(String::from_str("        try_files $uri $uri/ =404;"));
    v.push(String::from_str("    }"));
    v.push(String::from_str("}"));
    assert(views(v@) =~= nginx_conf_lines(key@, root@));
    join_lines(&v)
}

/// The configuration text before the access key.
pub open spec fn nginx_conf_head() -> Seq<char> {
    "map $arg_key $vrc_key_ok {\n    default 0;\n    \""@
}

/// The key of a file's URL is the key that the generated configuration
/// lets through: the URL ends with `?key=` and the profile's access key,
/// and the configuration's `map` entry, as nginx reads its quoted string,
/// is that same key.
pub proof fn lemma_url_key_matches_conf(profile: ServerProfile, filename: Seq<char>)
    ensures
        ({
            let k = profile.access_key@;
            let url = spec_build_url(profile.url_prefix@, filename, k);
            let q = "?key="@;
            let e = spec_escape_nginx_string(k);
            let conf = spec_gen_nginx_conf(k, profile.remote_dir@);
            let at = nginx_conf_head().len() as int;
            &&& url.subrange(url.len() - k.len() - q.len(), url.len() - k.len()) == q
            &&& url.subrange(url.len() - k.len(), url.len() as int) == k
            &&& conf.subrange(at, at + e.len()) == e
            &&& conf.subrange(at + e.len(), at + e.len() + 4) == "\" 1;"@
            &&& nginx_unescape(e) == k
        }),
{
    let k = profile.access_key@;
    let q = "?key="@;
    let url = spec_build_url(profile.url_prefix@, filename, k);
    let pre = crate::text::strip_trailing(profile.url_prefix@, '/') + "/"@ + filename;
    assert(url == pre + q + k);
    assert(url.subrange(url.len() - k.len() - q.len(), url.len() - k.len()) =~= q);
    assert(url.subrange(url.len() - k.len(), url.len() as int) =~= k);
    let e = spec_escape_nginx_string(k);
    let er = spec_escape_nginx_string(profile.remote_dir@);
    let ls = nginx_conf_lines(e, er);
    let conf = spec_gen_nginx_conf(k, profile.remote_dir@);
    let nl = seq!['\n'];
    let rest = unlines(ls.drop_first().drop_first().drop_first());
    let l1 = ls.drop_first();
    let l2 = l1.drop_first();
    assert(ls.len() == 21);
    assert(unlines(ls) == ls[0] + nl + unlines(l1));
    assert(unlines(l1) == l1[0] + nl + unlines(l2));
    assert(unlines(l2) == l2[0] + nl + rest);
    assert(l1[0] == ls[1]);
    assert(l2[0] == ls[2]);
    assert(conf == ls[0] + nl + (ls[1] + nl + (ls[2] + nl + rest)));
    reveal_strlit("map $arg_key $vrc_key_ok {");
    reveal_strlit("    default 0;");
    reveal_strlit("    \"");
    reveal_strlit("\" 1;");
    reveal_strlit("map $arg_key $vrc_key_ok {\n    default 0;\n    \"");
    let head = nginx_conf_head();
    let tail = "\" 1;"@ + nl + rest;
    assert(head =~= ls[0] + nl + ls[1] + nl + "    \""@);
    assert(conf =~= head + e + tail);
    let at = head.len() as int;
    assert(conf.subrange(at, at + e.len()) =~= e);
    assert(conf.subrange(at + e.len(), at + e.len() + 4) =~= "\" 1;"@);
    lemma_escape_nginx_string_roundtrip(k);
}

// ---------------------------------------------------------------------------
// Step log
// ---------------------------------------------------------------------------

/// What one remote command printed (stdout and stderr together) and its
/// exit code (-1 when the server sent none).
#[derive(Debug, PartialEq, Eq)]
pub struct ExecOutput {
    pub exit_code: i32,
    pub output: String,
}

/// Number of bytes of `c` in UTF-8.
pub open spec fn utf8_width(c: char) -> nat {
    let u = c as u32;
    if u < 0x80 {
        1
    } else if u < 0x800 {
        2
    } else if u < 0x10000 {
        3
    } else {
        4
    }
}

/// Number of bytes of `s` in UTF-8.
pub open spec fn utf8_len(s: Seq<char>) -> nat
    decreases s.len(),
{
    if s.len() == 0 {
        0
    } else {
        utf8_len(s.drop_last()) + utf8_width(s.last())
    }
}

/// The longest run of whole characters at the end of `s` that takes at
/// most `budget` bytes in UTF-8.
pub open spec fn utf8_tail(s: Seq<char>, budget: nat) -> Seq<char>
    decreases s.len(),
{
    if s.len() == 0 || utf8_width(s.last()) > budget {
        Seq::empty()
    } else {
        utf8_tail(s.drop_last(), (budget - utf8_width(s.last())) as nat).push(s.last())
    }
}

fn width_of(c: char) -> (w: u64)
    ensures
        w == utf8_width(c),
{
    let u = c as u32;
    if u < 0x80 {
        1
    } else if u < 0x800 {
        2
    } else if u < 0x10000 {
        3
    } else {
        4
    }
}

/// The UTF-8 length of `v`, or `limit + 1` if it is larger than `limit`.
pub(crate) fn utf8_len_capped(v: &Vec<char>, limit: u64) -> (n: u64)
    requires
        limit < u64::MAX - 4,
    ensures
        (utf8_len(v@) > limit) == (n > limit),
{
    let mut n: u64 = 0;
    let mut i: usize = 0;
    while i < v.len()
        invariant
            i <= v.len(),
            limit < u64::MAX - 4,
            n <= limit ==> n == utf8_len(v@.take(i as int)),
            n > limit ==> utf8_len(v@.take(i as int)) > limit && n == limit + 1,
        decreases v.len() - i,
    {
        assert(v@.take(i + 1).drop_last() =~= v@.take(i as int));
        if n <= limit {
            n = n + width_of(v[i]);
            if n > limit {
                n = limit + 1;
            }
        }
        i = i + 1;
    }
    assert(v@.take(v.len() as int) =~= v@);
    n
}

/// The end of `v` that fits in `budget` bytes.
pub(crate) fn utf8_tail_chars(v: &Vec<char>, budget: u64) -> (r: Vec<char>)
    ensures
        r@ == utf8_tail(v@, budget as nat),
{
    let mut j: usize = v.len();
    let mut b: u64 = budget;
    assert(v@.take(j as int) =~= v@);
    assert(v@.skip(j as int) =~= Seq::<char>::empty());
    while j > 0 && width_of(v[j - 1]) <= b
        invariant
            j <= v.len(),
            b <= budget,
            utf8_tail(v@, budget as nat) == utf8_tail(v@.take(j as int), b as nat) + v@.skip(
                j as int,
            ),
        decreases j,
    {
        let ghost t = v@.take(j as int);
        assert(t.drop_last() =~= v@.take(j - 1));
        assert(t.last() == v@[j - 1]);
        assert(v@.skip(j - 1) =~= seq![v@[j - 1]] + v@.skip(j as int));
        assert(utf8_tail(t, b as nat) =~= utf8_tail(v@.take(j - 1), (b - utf8_width(v@[j - 1])) as nat).push(v@[j - 1]));
        b = b - width_of(v[j - 1]);
        j = j - 1;
        assert(utf8_tail(v@, budget as nat) =~= utf8_tail(v@.take(j as int), b as nat) + v@.skip(
            j as int,
        ));
    }
    assert(utf8_tail(v@.take(j as int), b as nat) =~= Seq::<char>::empty());
    assert(utf8_tail(v@, budget as nat) =~= v@.skip(j as int));
    sub_chars(v, j, v.len())
}

/// The tail of a command's output kept in the log: the output without
/// trailing white space, cut to its last 2000 bytes (at a character
/// boundary, behind a marker) when it is longer.
pub open spec fn spec_output_tail(output: Seq<char>) -> Seq<char> {
    let t = trim_end(output);
    if utf8_len(t) > 2000 {
        "...(已截断)\n"@ + utf8_tail(t, 2000)
    } else {
        t
    }
}

/// The status shown for an exit code.
pub open spec fn spec_step_status(exit_code: i32) -> Seq<char> {
    if exit_code == 0 {
        "成功"@
    } else {
        "失败(exit="@ + dec_signed(exit_code as int) + ")"@
    }
}

/// The log entry of one executed step.
pub open spec fn spec_format_step(title: Seq<char>, cmd: Seq<char>, exit_code: i32, output: Seq<
    char,
>) -> Seq<char> {
    "===== "@ + title + " ["@ + spec_step_status(exit_code) + "] =====\n$ "@ + cmd + "\n"@
        + spec_output_tail(output) + "\n"@
}

/// Formats one step of the log: title and status, the command, and the end
/// of its output.
pub fn format_step(title: &str, cmd: &str, out: &ExecOutput) -> (r: String)
    ensures
        r@ == spec_format_step(title@, cmd@, out.exit_code, out.output@),
{
    let v = chars_of(out.output.as_str());
    let trimmed = trim_end_chars(&v);
    let n = utf8_len_capped(&trimmed, 2000);
    let mut tail = String::new();
    if n > 2000 {
        push_str(&mut tail, "...(已截断)\n");
        let t = utf8_tail_chars(&trimmed, 2000);
        push_chars(&mut tail, &t);
    } else {
        push_chars(&mut tail, &trimmed);
    }
    let mut s = String::new();
    push_str(&mut s, "===== ");
    push_str(&mut s, title);
    push_str(&mut s, " [");
    if out.exit_code == 0 {
        push_str(&mut s, "成功");
    } else {
        push_str(&mut s, "失败(exit=");
        push_dec_signed(&mut s, out.exit_code as i64);
        push_str(&mut s, ")");
    }
    push_str(&mut s, "] =====\n$ ");
    push_str(&mut s, cmd);
    push_str(&mut s, "\n");
    push_str(&mut s, tail.as_str());
    push_str(&mut s, "\n");
    s
}

// ---------------------------------------------------------------------------
// One-click deployment
// ---------------------------------------------------------------------------

/// The credentials of a deployment: the key-ring secret is the password, or
/// the passphrase of the profile's private key.
pub open spec fn ssh_credentials_ok(
    profile: ServerProfile,
    secret: Option<Seq<char>>,
    r: Result<Credentials, String>,
) -> bool {
    match profile.auth_kind {
        AuthKind::Password => match secret {
            Some(s) => r matches Ok(Credentials::Password { password }) && password@ == s,
            None => r matches Err(e) && e@ == "缺少密码：未在 keyring 中找到该 profile 的口令"@,
        },
        AuthKind::Privatekey => match profile.private_key_path {
            Some(p) => r matches Ok(Credentials::PrivateKey { path, passphrase }) && path@ == p@
                && match secret {
                Some(s) => passphrase matches Some(q) && q@ == s,
                None => passphrase is None,
            },
            None => r matches Err(e) && e@ == "私钥认证缺少 privateKeyPath"@,
        },
    }
}

/// Credentials chosen for a deployment follow the profile and its secret (see
/// `credentials_follow_profile`): in particular a key login's passphrase is
/// the key-ring secret.
pub proof fn lemma_ssh_credentials_follow_profile(
    profile: ServerProfile,
    secret: Option<Seq<char>>,
    r: Result<Credentials, String>,
)
    requires
        ssh_credentials_ok(profile, secret, r),
    ensures
        credentials_follow_profile(profile, secret, r),
{
}

/// Chooses how to log in for a deployment, or the error when the profile
/// lacks what its login kind needs.
pub fn ssh_credentials(profile: &ServerProfile, secret: Option<&str>) -> (r: Result<
    Credentials,
    String,
>)
    ensures
        ssh_credentials_ok(
            *profile,
            match secret {
                Some(s) => Some(s@),
                None => None,
            },
            r,
        ),
        credentials_follow_profile(
            *profile,
            match secret {
                Some(s) => Some(s@),
                None => None,
            },
            r,
        ),
{
    match profile.auth_kind {
        AuthKind::Password => match secret {
            Some(s) => Ok(Credentials::Password { password: String::from_str(s) }),
            None => Err(String::from_str("缺少密码：未在 keyring 中找到该 profile 的口令")),
        },
        AuthKind::Privatekey => match &profile.private_key_path {
            Some(p) => {
                let passphrase = match secret {
                    Some(s) => Some(String::from_str(s)),
                    None => None,
                };
                Ok(Credentials::PrivateKey { path: p.clone(), passphrase })
            },
            None => Err(String::from_str("私钥认证缺少 privateKeyPath")),
        },
    }
}

/// A named remote command of the deployment.
#[derive(Debug, PartialEq, Eq)]
pub struct DeployStep {
    pub title: String,
    pub command: String,
}

/// Where the configuration is written (over the distribution's default site).
pub open spec fn remote_conf_path() -> Seq<char> {
    "/etc/nginx/sites-enabled/default"@
}

/// The command that writes `conf` with a quoted here-document, so that the
/// shell expands nothing in it.
pub open spec fn spec_write_conf_command(conf: Seq<char>) -> Seq<char> {
    "cat > "@ + remote_conf_path() + " <<'VRC_NGINX_EOF'\n"@ + conf + "\nVRC_NGINX_EOF"@
}

/// The terminator of the here-document that carries the configuration.
pub open spec fn heredoc_terminator() -> Seq<char> {
    "VRC_NGINX_EOF"@
}

/// What a shell reads as the body of a here-document from the text after
/// the line holding `<<`: the lines before the first line that equals the
/// terminator, each with its newline; `None` when no line ends it.
pub open spec fn heredoc_body(s: Seq<char>, delim: Seq<char>) -> Option<Seq<char>>
    decreases s.len(),
{
    match split_once(s, '\n') {
        None => if s == delim {
            Some(Seq::empty())
        } else {
            None
        },
        Some(p) => if p.0 == delim {
            Some(Seq::empty())
        } else {
            proof {
                lemma_split_once_parts(s, '\n');
            }
            match heredoc_body(p.1, delim) {
                Some(b) => Some(p.0 + seq!['\n'] + b),
                None => None,
            }
        },
    }
}

/// A line that a here-document carries as it is: it holds no newline and is
/// not the terminator.
pub open spec fn is_body_line(l: Seq<char>, delim: Seq<char>) -> bool {
    &&& forall|j: int| 0 <= j < l.len() ==> #[trigger] l[j] != '\n'
    &&& l != delim
}

/// A here-document whose lines are all body lines is read back whole, up to
/// the terminator that follows them.
pub proof fn lemma_heredoc_reads_lines(ls: Seq<Seq<char>>, delim: Seq<char>)
    requires
        forall|j: int| 0 <= j < delim.len() ==> #[trigger] delim[j] != '\n',
        forall|i: int| 0 <= i < ls.len() ==> #[trigger] is_body_line(ls[i], delim),
    ensures
        heredoc_body(unlines(ls) + delim, delim) == Some(unlines(ls)),
    decreases ls.len(),
{
    if ls.len() == 0 {
        assert(unlines(ls) + delim =~= delim);
        lemma_split_once_none(delim, '\n');
    } else {
        let rest = ls.drop_first();
        assert forall|i: int| 0 <= i < rest.len() implies #[trigger] is_body_line(rest[i], delim) by {
            assert(rest[i] == ls[i + 1]);
        }
        lemma_heredoc_reads_lines(rest, delim);
        let l = ls[0];
        assert(is_body_line(l, delim));
        let t = unlines(ls) + delim;
        assert(t =~= l + seq!['\n'] + (unlines(rest) + delim));
        assert(t[l.len() as int] == '\n');
        assert forall|j: int| 0 <= j < l.len() implies t[j] != '\n' by {
            assert(t[j] == l[j]);
        }
        lemma_split_once_at(t, '\n', l.len() as int);
        assert(t.take(l.len() as int) =~= l);
        assert(t.skip(l.len() as int + 1) =~= unlines(rest) + delim);
    }
}

/// Text around an escaped part holds no newline when the parts hold none.
proof fn lemma_no_newline_around(a: Seq<char>, e: Seq<char>, b: Seq<char>)
    requires
        forall|j: int| 0 <= j < a.len() ==> #[trigger] a[j] != '\n',
        forall|j: int| 0 <= j < e.len() ==> #[trigger] e[j] != '\n',
        forall|j: int| 0 <= j < b.len() ==> #[trigger] b[j] != '\n',
    ensures
        forall|j: int| 0 <= j < (a + e + b).len() ==> #[trigger] (a + e + b)[j] != '\n',
{
    assert forall|j: int| 0 <= j < (a + e + b).len() implies #[trigger] (a + e + b)[j] != '\n' by {
        if j < a.len() {
            assert((a + e + b)[j] == a[j]);
        } else if j < a.len() + e.len() {
            assert((a + e + b)[j] == e[j - a.len()]);
        } else {
            assert((a + e + b)[j] == b[j - a.len() - e.len()]);
        }
    }
}

/// Whatever the access key and the remote directory hold, no line of the
/// configuration holds a newline or is the here-document's terminator.
pub proof fn lemma_conf_lines_are_body_lines(access_key: Seq<char>, remote_dir: Seq<char>)
    ensures
        ({
            let ls = nginx_conf_lines(
                spec_escape_nginx_string(access_key),
                spec_escape_nginx_string(remote_dir),
            );
            forall|i: int| 0 <= i < ls.len() ==> #[trigger] is_body_line(ls[i], heredoc_terminator())
        }),
{
    let e = spec_escape_nginx_string(access_key);
    let er = spec_escape_nginx_string(remote_dir);
    let ls = nginx_conf_lines(e, er);
    let d = heredoc_terminator();
    lemma_escape_nginx_string_one_line(access_key);
    lemma_escape_nginx_string_one_line(remote_dir);
    reveal_strlit("VRC_NGINX_EOF");
    reveal_strlit("map $arg_key $vrc_key_ok {");
    reveal_strlit("    default 0;");
    reveal_strlit("    \"");
    reveal_strlit("\" 1;");
    reveal_strlit("}");
    reveal_strlit("server {");
    reveal_strlit("    listen 80 default_server;");
    reveal_strlit("    listen [::]:80 default_server;");
    reveal_strlit("    root ");
    reveal_strlit(";");
    reveal_strlit("    server_name _;");
    reveal_strlit("    location ~ \\.mp4$ {");
    reveal_strlit("        if ($vrc_key_ok = 0) {");
    reveal_strlit("            return 403;");
    reveal_strlit("        }");
    reveal_strlit("    }");
    reveal_strlit("    location / {");
    reveal_strlit("        try_files $uri $uri/ =404;");
    lemma_no_newline_around("    \""@, e, "\" 1;"@);
    lemma_no_newline_around("    root "@, er, ";"@);
    assert(ls[2][0] == ' ' && d[0] == 'V');
    assert(ls[8][0] == ' ');
    assert forall|i: int| 0 <= i < ls.len() implies #[trigger] is_body_line(ls[i], d) by {
        if i == 2 || i == 8 {
            assert(ls[i][0] != d[0]);
        }
    }
}

/// The command that writes the configuration writes it verbatim: its first
/// line is the `cat` with the quoted terminator, and the here-document after
/// that line is the configuration followed by one newline, whatever the
/// access key and the remote directory hold.
pub proof fn lemma_write_conf_writes_conf(access_key: Seq<char>, remote_dir: Seq<char>)
    ensures
        ({
            let conf = spec_gen_nginx_conf(access_key, remote_dir);
            let cmd = spec_write_conf_command(conf);
            &&& split_once(cmd, '\n') matches Some(p)
            &&& p.0 == "cat > /etc/nginx/sites-enabled/default <<'VRC_NGINX_EOF'"@
            &&& heredoc_body(p.1, heredoc_terminator()) == Some(conf + seq!['\n'])
        }),
{
    let e = spec_escape_nginx_string(access_key);
    let er = spec_escape_nginx_string(remote_dir);
    let ls = nginx_conf_lines(e, er);
    let conf = spec_gen_nginx_conf(access_key, remote_dir);
    let cmd = spec_write_conf_command(conf);
    let d = heredoc_terminator();
    let nl = seq!['\n'];
    let first = "cat > /etc/nginx/sites-enabled/default <<'VRC_NGINX_EOF'"@;
    reveal_strlit("cat > /etc/nginx/sites-enabled/default <<'VRC_NGINX_EOF'");
    reveal_strlit("cat > ");
    reveal_strlit("/etc/nginx/sites-enabled/default");
    reveal_strlit(" <<'VRC_NGINX_EOF'\n");
    reveal_strlit("\nVRC_NGINX_EOF");
    reveal_strlit("VRC_NGINX_EOF");
    let body = conf + nl + d;
    assert(cmd =~= first + nl + body);
    assert(cmd[first.len() as int] == '\n');
    assert forall|j: int| 0 <= j < first.len() implies cmd[j] != '\n' by {
        assert(cmd[j] == first[j]);
    }
    lemma_split_once_at(cmd, '\n', first.len() as int);
    assert(cmd.take(first.len() as int) =~= first);
    assert(cmd.skip(first.len() as int + 1) =~= body);
    let lines = ls.push(Seq::empty());
    lemma_unlines_push(ls, Seq::empty());
    assert(unlines(lines) =~= conf + nl);
    lemma_conf_lines_are_body_lines(access_key, remote_dir);
    assert forall|i: int| 0 <= i < lines.len() implies #[trigger] is_body_line(lines[i], d) by {
        if i < ls.len() {
            assert(lines[i] == ls[i]);
        } else {
            assert(lines[i] =~= Seq::<char>::empty());
        }
    }
    lemma_heredoc_reads_lines(lines, d);
    assert(unlines(lines) + d =~= body);
}

/// The deployment's steps, in order: update the package index, install
/// nginx, write the configuration, check it, enable and start nginx, reload
/// it, and ask whether it is active.
pub open spec fn spec_deploy_steps(conf: Seq<char>) -> Seq<(Seq<char>, Seq<char>)> {
    seq![
        ("apt 更新软件源"@, "export DEBIAN_FRONTEND=noninteractive; apt-get update -qq"@),
        ("安装 nginx"@, "export DEBIAN_FRONTEND=noninteractive; apt-get install -y -qq nginx"@),
        ("写入 nginx 配置"@, spec_write_conf_command(conf)),
        ("校验 nginx 配置"@, "nginx -t"@),
        ("开机自启并启动 nginx"@, "systemctl enable --now nginx"@),
        ("重载 nginx 配置"@, "systemctl reload nginx"@),
        ("查询 nginx 状态"@, "systemctl is-active nginx"@),
    ]
}

/// The title and command of each step.
pub open spec fn step_views(v: Seq<DeployStep>) -> Seq<(Seq<char>, Seq<char>)> {
    v.map_values(|s: DeployStep| (s.title@, s.command@))
}

fn push_step(v: &mut Vec<DeployStep>, title: &str, command: String)
    ensures
        step_views(final(v)@) == step_views(old(v)@).push((title@, command@)),
{
    v.push(DeployStep { title: String::from_str(title), command });
    assert(step_views(final(v)@) =~= step_views(old(v)@).push((title@, command@)));
}

/// The seven deployment steps for the given configuration text.
pub fn deploy_steps(conf: &str) -> (r: Vec<DeployStep>)
    ensures
        step_views(r@) == spec_deploy_steps(conf@),
{
    let mut write_conf = String::new();
    push_str(&mut write_conf, "cat > ");
    push_str(&mut write_conf, "/etc/nginx/sites-enabled/default");
    push_str(&mut write_conf, " <<'VRC_NGINX_EOF'\n");
    push_str(&mut write_conf, conf);
    push_str(&mut write_conf, "\nVRC_NGINX_EOF");
    let mut v: Vec<DeployStep> = Vec::new();
    assert(step_views(v@) =~= Seq::<(Seq<char>, Seq<char>)>::empty());
    push_step(
        &mut v,
        "apt 更新软件源",
        String::from_str("export DEBIAN_FRONTEND=noninteractive; apt-get update -qq"),
    );
    push_step(
        &mut v,
        "安装 nginx",
        String::from_str("export DEBIAN_FRONTEND=noninteractive; apt-get install -y -qq nginx"),
    );
    push_step(&mut v, "写入 nginx 配置", write_conf);
    push_step(&mut v, "校验 nginx 配置", String::from_str("nginx -t"));
    push_step(&mut v, "开机自启并启动 nginx", String::from_str("systemctl enable --now nginx"));
    push_step(&mut v, "重载 nginx 配置", String::from_str("systemctl reload nginx"));
    push_step(&mut v, "查询 nginx 状态", String::from_str("systemctl is-active nginx"));
    assert(step_views(v@) =~= spec_deploy_steps(conf@));
    v
}

/// The log of a deployment so far, and whether a step has failed.
#[derive(Debug, PartialEq, Eq)]
pub struct DeployLog {
    pub log: String,
    pub failed: bool,
}

/// The log line of a step that is not run because an earlier one failed.
pub open spec fn spec_skip_line(title: Seq<char>) -> Seq<char> {
    "\n[跳过] "@ + title + "（前序步骤失败）\n"@
}

impl DeployLog {
    /// An empty log with no failure.
    pub fn new() -> (r: DeployLog)
        ensures
            r.log@ == Seq::<char>::empty(),
            !r.failed,
    {
        DeployLog { log: String::new(), failed: false }
    }

    /// Whether the next step is to be run: only while every earlier step
    /// has succeeded (no reload on a broken configuration).
    pub fn should_run(&self) -> (r: bool)
        ensures
            r == !self.failed,
    {
        !self.failed
    }

    /// Logs a step that ran; a non-zero exit code marks the deployment failed.
    pub fn record(&mut self, step: &DeployStep, out: &ExecOutput)
        ensures
            final(self).log@ == old(self).log@ + spec_format_step(
                step.title@,
                step.command@,
                out.exit_code,
                out.output@,
            ),
            final(self).failed == (old(self).failed || out.exit_code != 0),
    {
        let entry = format_step(step.title.as_str(), step.command.as_str(), out);
        push_str(&mut self.log, entry.as_str());
        if out.exit_code != 0 {
            self.failed = true;
        }
    }

    /// Logs a step that was skipped.
    pub fn skip(&mut self, step: &DeployStep)
        ensures
            final(self).log@ == old(self).log@ + spec_skip_line(step.title@),
            final(self).failed == old(self).failed,
    {
        push_str(&mut self.log, "\n[跳过] ");
        push_str(&mut self.log, step.title.as_str());
        push_str(&mut self.log, "（前序步骤失败）\n");
    }

    /// The outcome: the whole log, as an error if any step failed.
    pub fn finish(self) -> (r: Result<String, String>)
        ensures
            match r {
                Ok(l) => !self.failed && l@ == self.log@,
                Err(e) => self.failed && e@ == self.log@,
            },
    {
        if self.failed {
            Err(self.log)
        } else {
            Ok(self.log)
        }
    }
}

/// The log of a whole deployment, given each step's outcome when it ran:
/// steps after the first failure are skipped.
pub open spec fn spec_deploy_log(
    steps: Seq<(Seq<char>, Seq<char>)>,
    outcomes: Seq<(i32, Seq<char>)>,
) -> (Seq<char>, bool)
    decreases steps.len(),
{
    if steps.len() == 0 {
        (Seq::empty(), false)
    } else {
        let prev = spec_deploy_log(steps.drop_last(), outcomes);
        let step = steps.last();
        let k = steps.len() - 1;
        if prev.1 {
            (prev.0 + spec_skip_line(step.0), true)
        } else {
            (
                prev.0 + spec_format_step(step.0, step.1, outcomes[k].0, outcomes[k].1),
                outcomes[k].0 != 0,
            )
        }
    }
}

/// Driving a `DeployLog` step by step (`record` while `should_run`, `skip`
/// otherwise) builds the whole deployment's log: each step extends the log
/// of the steps before it as `record` or `skip` does.
pub proof fn lemma_deploy_log_step(
    steps: Seq<(Seq<char>, Seq<char>)>,
    outcomes: Seq<(i32, Seq<char>)>,
    k: int,
)
    requires
        0 <= k < steps.len(),
    ensures
        ({
            let prev = spec_deploy_log(steps.take(k), outcomes);
            spec_deploy_log(steps.take(k + 1), outcomes) == if prev.1 {
                (prev.0 + spec_skip_line(steps[k].0), true)
            } else {
                (
                    prev.0 + spec_format_step(steps[k].0, steps[k].1, outcomes[k].0, outcomes[k].1),
                    outcomes[k].0 != 0,
                )
            }
        }),
{
    assert(steps.take(k + 1).drop_last() =~= steps.take(k));
    assert(steps.take(k + 1).last() == steps[k]);
}

/// Once a step has failed, every later step is skipped: the deployment has
/// failed exactly when some step that ran exited non-zero, and the failure
/// is the first non-zero exit code.
pub proof fn lemma_deploy_fails_at_first_error(
    steps: Seq<(Seq<char>, Seq<char>)>,
    outcomes: Seq<(i32, Seq<char>)>,
)
    requires
        outcomes.len() >= steps.len(),
    ensures
        spec_deploy_log(steps, outcomes).1 <==> exists|k: int|
            0 <= k < steps.len() && #[trigger] outcomes[k].0 != 0,
    decreases steps.len(),
{
    if steps.len() > 0 {
        lemma_deploy_fails_at_first_error(steps.drop_last(), outcomes);
        let k = steps.len() - 1;
        if spec_deploy_log(steps, outcomes).1 {
            if spec_deploy_log(steps.drop_last(), outcomes).1 {
                let j = choose|j: int| 0 <= j < steps.len() - 1 && #[trigger] outcomes[j].0 != 0;
                assert(0 <= j < steps.len() && outcomes[j].0 != 0);
            } else {
                assert(outcomes[k].0 != 0);
            }
        } else {
            assert forall|j: int| 0 <= j < steps.len() implies #[trigger] outcomes[j].0 == 0 by {
                if j < k {
                } else {
                }
            }
        }
    }
}

} // verus!
