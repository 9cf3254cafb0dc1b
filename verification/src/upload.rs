//! Remote paths and URLs of an upload, the step of each round of an
//! upload, and the reading of `df -k` for the free-space check.

use vstd::prelude::*;
use crate::num::{all_digits, is_digit, parse_u64, parse_u64_chars};
use crate::text::{
    char_views, chars_of, expand, lemma_expand_front, lemma_expand_take_step, lines, lines_of,
    push_char, push_chars, push_str, strip_trailing, strip_trailing_chars, words, words_of,
};
use crate::ffmpeg::last_component;
use crate::types::{credentials_follow_profile, AuthKind, Credentials, RemoteSpace, ServerProfile};
use russh::keys::PrivateKey;

verus! {

// ---------------------------------------------------------------------------
// Names and URLs
// ---------------------------------------------------------------------------

/// A path that is one plain file name on every platform: not empty, not
/// `.` or `..`, and free of `/`, `\` and `:` (separators and drive prefixes).
pub open spec fn is_plain_name(p: Seq<char>) -> bool {
    &&& p.len() > 0
    &&& p != "."@
    &&& p != ".."@
    &&& forall|i: int| 0 <= i < p.len() ==> #[trigger] p[i] != '/' && p[i] != '\\' && p[i] != ':'
}

/// A path without `\` whose last component is `..` (`..` itself, or ending
/// in `/..`). Without a `\` the path has no verbatim prefix, so `/` is a
/// separator on every platform.
pub open spec fn ends_in_parent(p: Seq<char>) -> bool {
    &&& forall|i: int| 0 <= i < p.len() ==> #[trigger] p[i] != '\\'
    &&& (p == ".."@ || (p.len() >= 3 && p.subrange(p.len() - 3, p.len() as int) == "/.."@))
}

/// A path that every platform splits the same way: no `\\`, no `:` (so no
/// drive or verbatim prefix), and no leading `//` (no network prefix); only
/// `/` separates its components.
pub open spec fn is_portable_path(p: Seq<char>) -> bool {
    &&& forall|i: int| 0 <= i < p.len() ==> #[trigger] p[i] != '\\' && p[i] != ':'
    &&& !(p.len() >= 2 && p[0] == '/' && p[1] == '/')
}

/// The component of `p` after its last `/` is no longer than `p`.
pub proof fn lemma_last_component_len(p: Seq<char>)
    ensures
        last_component(p).len() <= p.len(),
    decreases p.len(),
{
    if p.len() > 0 && p.last() != '/' {
        lemma_last_component_len(p.drop_last());
    }
}

/// The final name of a path whose components `/` separates: the last
/// component once empty and `.` components are dropped; `None` when there
/// is none left, or when it is `..`.
pub open spec fn final_name(p: Seq<char>) -> Option<Seq<char>>
    decreases p.len(),
{
    let c = last_component(p);
    if c.len() == 0 || c == "."@ {
        if c.len() < p.len() {
            proof {
                lemma_last_component_len(p);
            }
            final_name(p.take(p.len() - c.len() - 1))
        } else {
            None
        }
    } else if c == ".."@ {
        None
    } else {
        Some(c)
    }
}

/// The final component of a local path, as std's `Path::file_name` finds it,
/// when it is valid Unicode. As its documentation states (and that of
/// `Path::components`: repeated separators, trailing separators and `.`
/// components are normalized away), a plain file name is its own file
/// name, a path without `\` ending in `..` has none (after a verbatim
/// prefix such as `\\?\` only `\` separates components), and a portable
/// path's file name is its final name. Paths with `\`, `:` or a leading
/// `//` are split by platform rules, and their file name is left unsaid.
/// `Path::new`, `to_str` and `to_string` only convert the argument and the
/// result (a component of valid Unicode is valid Unicode).
#[verifier::external_body]
fn path_file_name(local_path: &str) -> (r: Option<String>)
    ensures
        is_plain_name(local_path@) ==> r is Some && r->0@ == local_path@,
        ends_in_parent(local_path@) ==> r is None,
        is_portable_path(local_path@) ==> match final_name(local_path@) {
            Some(n) => r is Some && r->0@ == n,
            None => r is None,
        },
{
    std::path::Path::new(local_path).file_name().and_then(|s| s.to_str()).map(|s| s.to_string())
}

/// The message when a path has no file name.
pub open spec fn spec_no_file_name_message(local_path: Seq<char>) -> Seq<char> {
    "无法从 "@ + local_path + " 解析文件名"@
}

/// The file name found in a path, or the error reported when there is none.
pub fn file_name_result(local_path: &str, name: Option<String>) -> (r: Result<String, String>)
    ensures
        match name {
            Some(n) => r == Ok::<String, String>(n),
            None => r matches Err(e) && e@ == spec_no_file_name_message(local_path@),
        },
{
    match name {
        Some(n) => Ok(n),
        None => {
            let mut e = String::new();
            push_str(&mut e, "无法从 ");
            push_str(&mut e, local_path);
            push_str(&mut e, " 解析文件名");
            Err(e)
        },
    }
}

/// The file name of a local file (used for the remote path and the URL): a
/// plain name is its own file name; a path without `\` ending in `..` has
/// none; a portable path's file name is its final name.
pub fn file_name(local_path: &str) -> (r: Result<String, String>)
    ensures
        r matches Err(e) ==> e@ == spec_no_file_name_message(local_path@),
        is_plain_name(local_path@) ==> r is Ok && r->Ok_0@ == local_path@,
        ends_in_parent(local_path@) ==> r is Err,
        is_portable_path(local_path@) ==> match final_name(local_path@) {
            Some(n) => r is Ok && r->Ok_0@ == n,
            None => r is Err,
        },
{
    let name = path_file_name(local_path);
    file_name_result(local_path, name)
}

/// `dir/filename` with the directory's trailing slashes removed (remote
/// paths are POSIX paths).
pub open spec fn spec_join_remote(remote_dir: Seq<char>, filename: Seq<char>) -> Seq<char> {
    strip_trailing(remote_dir, '/') + "/"@ + filename
}

/// Joins the remote directory and a file name with one `/`.
pub fn join_remote(remote_dir: &str, filename: &str) -> (r: String)
    ensures
        r@ == spec_join_remote(remote_dir@, filename@),
{
    let d = strip_trailing_chars(&chars_of(remote_dir), '/');
    let mut r = String::new();
    push_chars(&mut r, &d);
    push_str(&mut r, "/");
    push_str(&mut r, filename);
    r
}

/// `{url_prefix}/{filename}?key={access_key}`, the prefix without trailing
/// slashes.
pub open spec fn spec_build_url(
    url_prefix: Seq<char>,
    filename: Seq<char>,
    access_key: Seq<char>,
) -> Seq<char> {
    strip_trailing(url_prefix, '/') + "/"@ + filename + "?key="@ + access_key
}

/// The playable URL of an uploaded file, with the profile's access key.
pub fn build_url(profile: &ServerProfile, filename: &str) -> (r: String)
    ensures
        r@ == spec_build_url(profile.url_prefix@, filename@, profile.access_key@),
{
    let p = strip_trailing_chars(&chars_of(profile.url_prefix.as_str()), '/');
    let mut r = String::new();
    push_chars(&mut r, &p);
    push_str(&mut r, "/");
    push_str(&mut r, filename);
    push_str(&mut r, "?key=");
    push_str(&mut r, profile.access_key.as_str());
    r
}

// ---------------------------------------------------------------------------
// Logging in
// ---------------------------------------------------------------------------

/// The credentials of an upload: the key-ring secret is the password, or
/// the passphrase of the profile's private key.
pub open spec fn sftp_credentials_ok(
    profile: ServerProfile,
    secret: Option<Seq<char>>,
    r: Result<Credentials, String>,
) -> bool {
    match profile.auth_kind {
        AuthKind::Password => match secret {
            Some(s) => r matches Ok(Credentials::Password { password }) && password@ == s,
            None => r matches Err(e) && e@ == "密码认证缺少凭据（keyring 未找到）"@,
        },
        AuthKind::Privatekey => match profile.private_key_path {
            Some(p) => r matches Ok(Credentials::PrivateKey { path, passphrase }) && path@ == p@
                && match secret {
                Some(s) => passphrase matches Some(q) && q@ == s,
                None => passphrase is None,
            },
            None => r matches Err(e) && e@ == "私钥认证缺少 private_key_path"@,
        },
    }
}

fn opt_str_to_string(s: Option<&str>) -> (r: Option<String>)
    ensures
        match s {
            Some(x) => r matches Some(y) && y@ == x@,
            None => r is None,
        },
{
    match s {
        Some(x) => Some(String::from_str(x)),
        None => None,
    }
}

/// Credentials chosen for an upload follow the profile and its secret (see
/// `credentials_follow_profile`): in particular a key login's passphrase is
/// the key-ring secret.
pub proof fn lemma_sftp_credentials_follow_profile(
    profile: ServerProfile,
    secret: Option<Seq<char>>,
    r: Result<Credentials, String>,
)
    requires
        sftp_credentials_ok(profile, secret, r),
    ensures
        credentials_follow_profile(profile, secret, r),
{
}

/// Chooses how to log in for an upload, or the error when the profile
/// lacks what its login kind needs.
pub fn sftp_credentials(profile: &ServerProfile, secret: Option<&str>) -> (r: Result<
    Credentials,
    String,
>)
    ensures
        sftp_credentials_ok(
            *profile,
            match secret {
                Some(s) => Some(s@),
                None => None,
            },
            r,
        ),
        credentials_follow_profile(
            *profile,
            match secret {
                Some(s) => Some(s@),
                None => None,
            },
            r,
        ),
{
    match profile.auth_kind {
        AuthKind::Password => match secret {
            Some(s) => Ok(Credentials::Password { password: String::from_str(s) }),
            None => Err(String::from_str("密码认证缺少凭据（keyring 未找到）")),
        },
        AuthKind::Privatekey => match &profile.private_key_path {
            Some(p) => Ok(
                Credentials::PrivateKey { path: p.clone(), passphrase: opt_str_to_string(secret) },
            ),
            None => Err(String::from_str("私钥认证缺少 private_key_path")),
        },
    }
}

#[verifier::external_type_specification]
#[verifier::external_body]
pub struct ExPrivateKey(russh::keys::PrivateKey);

/// Whether `russh::keys::decode_secret_key` reads a private key from the
/// text with the passphrase.
pub uninterp spec fn decodes_key(text: Seq<char>, passphrase: Option<Seq<char>>) -> bool;

/// `russh::keys::decode_secret_key`: reads a private key (OpenSSH, PKCS#5,
/// PKCS#8 or PuTTY text), deciphering it with the passphrase. A pure parse
/// of its two arguments, so whether a key comes back is named as a function
/// of them; the key itself is opaque, and its error is dropped.
#[verifier::external_body]
fn decode_key_text(text: &str, passphrase: Option<&str>) -> (r: Option<PrivateKey>)
    ensures
        r is Some == decodes_key(
            text@,
            match passphrase {
                Some(p) => Some(p@),
                None => None,
            },
        ),
{
    russh::keys::decode_secret_key(text, passphrase).ok()
}

/// The message when no private key can be had from the path.
pub open spec fn spec_key_load_error(path: Seq<char>, load_error: Seq<char>) -> Seq<char> {
    "加载私钥 "@ + path + " 失败: "@ + load_error
}

/// The key to log in with, given the outcome of loading the key file at
/// `path` (the loader's error as text): the loaded key; else the key
/// decoded from `path` itself, which may hold the key text; else the
/// loader's error.
pub fn resolve_private_key(
    path: &str,
    passphrase: Option<&str>,
    loaded: Result<PrivateKey, String>,
) -> (r: Result<PrivateKey, String>)
    ensures
        match loaded {
            Ok(k) => r == Ok::<PrivateKey, String>(k),
            Err(msg) => if decodes_key(
                path@,
                match passphrase {
                    Some(p) => Some(p@),
                    None => None,
                },
            ) {
                r is Ok
            } else {
                r matches Err(e) && e@ == spec_key_load_error(path@, msg@)
            },
        },
{
    match loaded {
        Ok(k) => Ok(k),
        Err(msg) => match decode_key_text(path, passphrase) {
            Some(k) => Ok(k),
            None => {
                let mut e = String::new();
                push_str(&mut e, "加载私钥 ");
                push_str(&mut e, path);
                push_str(&mut e, " 失败: ");
                push_str(&mut e, msg.as_str());
                Err(e)
            },
        },
    }
}

// ---------------------------------------------------------------------------
// Resuming
// ---------------------------------------------------------------------------

/// What the next round of an upload does, given the remote file's size.
#[derive(Debug, Clone, Copy, PartialEq, Eq, Structural)]
pub enum UploadStep {
    /// The remote file holds as many bytes as the local one: the upload is
    /// complete.
    Done,
    /// The remote file is a shorter prefix: open it without truncating and
    /// write the local bytes from `offset` on.
    Append { offset: u64 },
    /// There is no remote file, or it is larger than the local one: create
    /// or truncate it and write every local byte from the start.
    Rewrite,
}

/// The step for a remote file of `remote_size` bytes (`None`: absent) and a
/// local file of `total` bytes.
pub open spec fn spec_next_upload_step(remote_size: Option<u64>, total: u64) -> UploadStep {
    match remote_size {
        None => UploadStep::Rewrite,
        Some(n) => if n == total {
            UploadStep::Done
        } else if n < total {
            UploadStep::Append { offset: n }
        } else {
            UploadStep::Rewrite
        },
    }
}

/// Decides the next round of an upload: the rounds go on until the remote
/// size equals the local size; a shorter remote file is resumed where it
/// ends, a missing or larger one is written anew.
pub fn next_upload_step(remote_size: Option<u64>, total: u64) -> (r: UploadStep)
    ensures
        r == spec_next_upload_step(remote_size, total),
        (r == UploadStep::Done) == (remote_size == Some(total)),
        r matches UploadStep::Append { offset } ==> remote_size == Some(offset) && offset < total,
        (r is Append) == (remote_size matches Some(n) && n < total),
        (r == UploadStep::Rewrite) == (remote_size is None || (remote_size matches Some(n) && n
            > total)),
{
    match remote_size {
        None => UploadStep::Rewrite,
        Some(n) => if n == total {
            UploadStep::Done
        } else if n < total {
            UploadStep::Append { offset: n }
        } else {
            UploadStep::Rewrite
        },
    }
}

/// A round starts where the remote bytes end (a resumed round at exactly the
/// remote size, so the bytes already there and the bytes written cover the
/// whole file without a gap) or at the start, and writing all the local
/// bytes from there leaves a remote file of exactly the local size, so the
/// step after it is `Done`.
pub proof fn lemma_upload_round_completes(remote_size: Option<u64>, total: u64)
    ensures
        match spec_next_upload_step(remote_size, total) {
            UploadStep::Done => remote_size == Some(total),
            UploadStep::Append { offset } => remote_size == Some(offset) && offset < total
                && spec_next_upload_step(
                Some((offset + (total - offset)) as u64),
                total,
            ) == UploadStep::Done,
            UploadStep::Rewrite => spec_next_upload_step(Some(total), total) == UploadStep::Done,
        },
{
}

// ---------------------------------------------------------------------------
// Shell quoting
// ---------------------------------------------------------------------------

/// How one character is written inside POSIX single quotes: a quote closes
/// the quoting, is given escaped, and the quoting opens again.
pub open spec fn shell_quote_char(c: char) -> Seq<char> {
    if c == '\'' {
        seq!['\'', '\\', '\'', '\'']
    } else {
        seq![c]
    }
}

/// `s` in single quotes for a POSIX shell.
pub open spec fn spec_shell_quote(s: Seq<char>) -> Seq<char> {
    seq!['\''] + expand(s, |c: char| shell_quote_char(c)) + seq!['\'']
}

/// Quotes a string for a POSIX shell command line.
pub fn shell_quote(s: &str) -> (r: String)
    ensures
        r@ == spec_shell_quote(s@),
{
    let v = chars_of(s);
    let ghost f = |c: char| shell_quote_char(c);
    let mut out = String::new();
    push_char(&mut out, '\'');
    let mut i: usize = 0;
    while i < v.len()
        invariant
            i <= v.len(),
            v@ == s@,
            f == (|c: char| shell_quote_char(c)),
            out@ == seq!['\''] + expand(v@.take(i as int), f),
        decreases v.len() - i,
    {
        let c = v[i];
        if c == '\'' {
            push_char(&mut out, '\'');
            push_char(&mut out, '\\');
            push_char(&mut out, '\'');
            push_char(&mut out, '\'');
        } else {
            push_char(&mut out, c);
        }
        proof {
            lemma_expand_take_step(v@, i as int, f);
        }
        i = i + 1;
        assert(out@ =~= seq!['\''] + expand(v@.take(i as int), f));
    }
    assert(v@.take(v.len() as int) =~= v@);
    push_char(&mut out, '\'');
    out
}

/// The word a POSIX shell makes of `s` (quote removal): outside quotes a
/// backslash keeps the next character, a single quote starts a quoted run;
/// inside, every character is kept until the closing quote.
pub open spec fn shell_word(s: Seq<char>, quoted: bool) -> Seq<char>
    decreases s.len(),
{
    if s.len() == 0 {
        Seq::empty()
    } else if quoted {
        if s[0] == '\'' {
            shell_word(s.drop_first(), false)
        } else {
            seq![s[0]] + shell_word(s.drop_first(), true)
        }
    } else if s[0] == '\'' {
        shell_word(s.drop_first(), true)
    } else if s[0] == '\\' && s.len() >= 2 {
        seq![s[1]] + shell_word(s.subrange(2, s.len() as int), false)
    } else {
        seq![s[0]] + shell_word(s.drop_first(), false)
    }
}

proof fn lemma_shell_word_quoted(s: Seq<char>)
    ensures
        shell_word(expand(s, |c: char| shell_quote_char(c)) + seq!['\''], true) == s,
    decreases s.len(),
{
    let f = |c: char| shell_quote_char(c);
    if s.len() == 0 {
        assert(expand(s, f) =~= Seq::<char>::empty());
        let t = expand(s, f) + seq!['\''];
        assert(t =~= seq!['\'']);
        assert(t.drop_first() =~= Seq::<char>::empty());
        assert(shell_word(t, true) == shell_word(t.drop_first(), false));
        assert(shell_word(t, true) =~= s);
    } else {
        lemma_expand_front(s, f);
        lemma_shell_word_quoted(s.drop_first());
        let rest = expand(s.drop_first(), f) + seq!['\''];
        let t = expand(s, f) + seq!['\''];
        assert(t =~= f(s[0]) + rest);
        if s[0] == '\'' {
            assert(t[0] == '\'' && t[1] == '\\' && t[2] == '\'' && t[3] == '\'');
            assert(t.drop_first()[0] == '\\');
            assert(t.drop_first().subrange(2, t.drop_first().len() as int) =~= seq!['\''] + rest);
            assert((seq!['\''] + rest).drop_first() =~= rest);
            assert(shell_word(t, true) == shell_word(t.drop_first(), false));
            assert(shell_word(t.drop_first(), false) == seq!['\''] + shell_word(seq!['\''] + rest, false));
            assert(shell_word(seq!['\''] + rest, false) == shell_word(rest, true));
            assert(shell_word(t, true) =~= seq![s[0]] + s.drop_first());
        } else {
            assert(t[0] == s[0]);
            assert(t.drop_first() =~= rest);
            assert(shell_word(t, true) =~= seq![s[0]] + s.drop_first());
        }
        assert(seq![s[0]] + s.drop_first() =~= s);
    }
}

/// The shell reads a quoted string back as the string itself, whatever it
/// holds (spaces, quotes, backslashes).
pub proof fn lemma_shell_quote_roundtrip(s: Seq<char>)
    ensures
        shell_word(spec_shell_quote(s), false) == s,
{
    lemma_shell_word_quoted(s);
    let q = spec_shell_quote(s);
    assert(q.drop_first() =~= expand(s, |c: char| shell_quote_char(c)) + seq!['\'']);
}

// ---------------------------------------------------------------------------
// df -k
// ---------------------------------------------------------------------------

/// How many of the words consist of digits only.
pub open spec fn digit_word_count(ws: Seq<Seq<char>>) -> nat
    decreases ws.len(),
{
    if ws.len() == 0 {
        0
    } else {
        digit_word_count(ws.drop_last()) + if all_digits(ws.last()) {
            1nat
        } else {
            0nat
        }
    }
}

/// The words that parse as `u64`, as numbers, in order.
pub open spec fn parsed_numbers(ws: Seq<Seq<char>>) -> Seq<u64>
    decreases ws.len(),
{
    if ws.len() == 0 {
        Seq::empty()
    } else {
        match parse_u64(ws.last()) {
            Some(n) => parsed_numbers(ws.drop_last()).push(n),
            None => parsed_numbers(ws.drop_last()),
        }
    }
}

/// The last line with at least three words of digits only.
pub open spec fn last_data_line(ls: Seq<Seq<char>>) -> Option<Seq<char>>
    decreases ls.len(),
{
    if ls.len() == 0 {
        None
    } else if digit_word_count(words(ls.last())) >= 3 {
        Some(ls.last())
    } else {
        last_data_line(ls.drop_last())
    }
}

/// The numbers of the data line of `df -k` output (the last line after the
/// header with three or more numeric words, so that a file system name
/// long enough to wrap its line is passed over), if there is one.
pub open spec fn spec_df_numbers(out: Seq<char>) -> Option<Seq<u64>> {
    let ls = lines(out);
    let rest = if ls.len() == 0 {
        ls
    } else {
        ls.drop_first()
    };
    match last_data_line(rest) {
        Some(l) => Some(parsed_numbers(words(l))),
        None => None,
    }
}

/// Whether the free and total block counts, times 1024, fit in a `u64`.
pub open spec fn spec_df_fits(out: Seq<char>) -> bool {
    match spec_df_numbers(out) {
        Some(n) => n.len() >= 3 ==> n[0] * 1024 <= u64::MAX && n[2] * 1024 <= u64::MAX,
        None => true,
    }
}

/// (free bytes, total bytes) from `df -k`: the first and third numbers of
/// the data line are the 1K-blocks total and available.
pub open spec fn spec_parse_df_k(out: Seq<char>) -> Option<(u64, u64)> {
    match spec_df_numbers(out) {
        Some(n) => if n.len() >= 3 {
            Some(((n[2] * 1024) as u64, (n[0] * 1024) as u64))
        } else {
            None
        },
        None => None,
    }
}

fn digit_word_count_of(ws: &Vec<Vec<char>>) -> (n: usize)
    ensures
        n == digit_word_count(char_views(ws@)),
{
    let mut n: usize = 0;
    let mut i: usize = 0;
    while i < ws.len()
        invariant
            i <= ws.len(),
            n <= i,
            n == digit_word_count(char_views(ws@).take(i as int)),
        decreases ws.len() - i,
    {
        let w = &ws[i];
        let mut all = true;
        let mut j: usize = 0;
        while j < w.len()
            invariant
                j <= w.len(),
                all == all_digits(w@.take(j as int)),
            decreases w.len() - j,
        {
            let c = w[j];
            if !('0' <= c && c <= '9') {
                all = false;
            }
            j = j + 1;
            assert(all == all_digits(w@.take(j as int))) by {
                if all {
                    assert forall|k: int| 0 <= k < w@.take(j as int).len() implies is_digit(
                        #[trigger] w@.take(j as int)[k],
                    ) by {
                        if k < j - 1 {
                            assert(w@.take(j as int)[k] == w@.take(j - 1)[k]);
                        }
                    }
                } else if all_digits(w@.take(j as int)) {
                    if !is_digit(c) {
                        assert(w@.take(j as int)[j - 1] == c);
                    } else {
                        assert forall|k: int| 0 <= k < w@.take(j - 1).len() implies is_digit(
                            #[trigger] w@.take(j - 1)[k],
                        ) by {
                            assert(w@.take(j - 1)[k] == w@.take(j as int)[k]);
                        }
                    }
                }
            }
        }
        assert(w@.take(w.len() as int) =~= w@);
        let ghost cv = char_views(ws@);
        assert(cv.take(i + 1).drop_last() =~= cv.take(i as int));
        assert(cv.take(i + 1).last() == w@);
        if all {
            n = n + 1;
        }
        i = i + 1;
    }
    assert(char_views(ws@).take(ws.len() as int) =~= char_views(ws@));
    n
}

fn parsed_numbers_of(ws: &Vec<Vec<char>>) -> (r: Vec<u64>)
    ensures
        r@ == parsed_numbers(char_views(ws@)),
{
    let mut r: Vec<u64> = Vec::new();
    let mut i: usize = 0;
    while i < ws.len()
        invariant
            i <= ws.len(),
            r@ == parsed_numbers(char_views(ws@).take(i as int)),
        decreases ws.len() - i,
    {
        let ghost cv = char_views(ws@);
        assert(cv.take(i + 1).drop_last() =~= cv.take(i as int));
        assert(cv.take(i + 1).last() == ws@[i as int]@);
        match parse_u64_chars(&ws[i]) {
            Some(n) => r.push(n),
            None => {},
        }
        i = i + 1;
    }
    assert(char_views(ws@).take(ws.len() as int) =~= char_views(ws@));
    r
}

/// The numbers of the data line of `df -k` output.
pub fn df_numbers(out: &str) -> (r: Option<Vec<u64>>)
    ensures
        match r {
            Some(n) => spec_df_numbers(out@) == Some(n@),
            None => spec_df_numbers(out@) is None,
        },
{
    let cs = chars_of(out);
    let ls = lines_of(&cs);
    let ghost lv = char_views(ls@);
    assert(lv == lines(out@));
    let ghost rest = if lv.len() == 0 {
        lv
    } else {
        lv.drop_first()
    };
    let start: usize = if ls.len() == 0 {
        0
    } else {
        1
    };
    assert(rest =~= lv.subrange(start as int, lv.len() as int));
    let mut i: usize = ls.len();
    while i > start
        invariant
            start <= i <= ls.len(),
            start == (if ls.len() == 0 { 0usize } else { 1usize }),
            lv == char_views(ls@),
            lv == lines(out@),
            rest == (if lv.len() == 0 {
                lv
            } else {
                lv.drop_first()
            }),
            last_data_line(rest) == last_data_line(lv.subrange(start as int, i as int)),
        decreases i,
    {
        let ws = words_of(&ls[i - 1]);
        let ghost sub = lv.subrange(start as int, i as int);
        assert(sub.last() == ls@[i - 1]@);
        assert(sub.drop_last() =~= lv.subrange(start as int, i - 1));
        if digit_word_count_of(&ws) >= 3 {
            let nums = parsed_numbers_of(&ws);
            assert(last_data_line(sub) == Some(sub.last()));
            assert(words(sub.last()) == char_views(ws@));
            assert(spec_df_numbers(out@) == Some(parsed_numbers(words(sub.last()))));
            return Some(nums);
        }
        i = i - 1;
    }
    assert(lv.subrange(start as int, i as int) =~= Seq::<Seq<char>>::empty());
    None
}

/// Whether the numbers of `df -k` output can be turned into bytes without
/// overflow.
pub fn df_fits(out: &str) -> (r: bool)
    ensures
        r == spec_df_fits(out@),
{
    match df_numbers(out) {
        Some(n) => n.len() < 3 || (n[0] <= u64::MAX / 1024 && n[2] <= u64::MAX / 1024),
        None => true,
    }
}

/// Reads `df -k <dir>` output: (available bytes, total bytes) from the last
/// data line, or `None` when no line after the header has three numbers.
pub fn parse_df_k(out: &str) -> (r: Option<(u64, u64)>)
    requires
        spec_df_fits(out@),
    ensures
        r == spec_parse_df_k(out@),
{
    match df_numbers(out) {
        Some(n) => if n.len() >= 3 {
            Some((n[2] * 1024, n[0] * 1024))
        } else {
            None
        },
        None => None,
    }
}

/// The command that asks for the space of the remote directory.
pub open spec fn spec_df_command(remote_dir: Seq<char>) -> Seq<char> {
    "df -k "@ + spec_shell_quote(remote_dir)
}

/// `df -k '<remote_dir>'` (1K blocks, POSIX everywhere).
pub fn df_command(remote_dir: &str) -> (r: String)
    ensures
        r@ == spec_df_command(remote_dir@),
{
    let mut s = String::new();
    push_str(&mut s, "df -k ");
    let q = shell_quote(remote_dir);
    push_str(&mut s, q.as_str());
    s
}

/// The free-space answer for `df -k` output, or the error shown when it
/// cannot be read.
pub fn remote_space_from_df(out: &str) -> (r: Result<RemoteSpace, String>)
    requires
        spec_df_fits(out@),
    ensures
        match spec_parse_df_k(out@) {
            Some(p) => r == Ok::<RemoteSpace, String>(RemoteSpace { free_bytes: p.0, total_bytes: p.1 }),
            None => r matches Err(e) && e@ == "无法解析 df 输出:\n"@ + out@,
        },
{
    match parse_df_k(out) {
        Some((free_bytes, total_bytes)) => Ok(RemoteSpace { free_bytes, total_bytes }),
        None => {
            let mut e = String::new();
            push_str(&mut e, "无法解析 df 输出:\n");
            push_str(&mut e, out);
            Err(e)
        },
    }
}

} // verus!
