//! The remote diary reached over SSH: which host the settings name, the
//! arguments of the `ssh` command, and the lines it prints.
use vstd::prelude::*;
use vstd::utf8::{decode_utf8, valid_utf8};

use crate::text::{is_ascii_alphanumeric, nat_decimal, push_char, push_decimal, push_str, str_chars, to_owned_string, views};

verus! {

// ---------------------------------------------------------------------------
// URLs
// ---------------------------------------------------------------------------

/// The parts of a parsed URL the diary reads.
#[derive(Debug)]
pub struct UrlParts {
    /// The scheme, lower-cased, without `:`.
    pub scheme: String,
    /// The user name, empty when there is none.
    pub username: String,
    /// The host, if the URL has one.
    pub host: Option<String>,
    /// The port, if the URL gives one other than the scheme's default.
    pub port: Option<u16>,
}

/// The view of an optional text.
pub open spec fn opt_view(o: Option<String>) -> Option<Seq<char>> {
    match o {
        Some(s) => Some(s@),
        None => None,
    }
}

/// The parts of a URL as plain values.
pub open spec fn url_view(u: UrlParts) -> (Seq<char>, Seq<char>, Option<Seq<char>>, Option<u16>) {
    (u.scheme@, u.username@, opt_view(u.host), u.port)
}

/// What `url::Url::parse(text)` gives: `None` where it fails, else the
/// scheme, user name, host and port of the URL.
pub uninterp spec fn spec_url_parse(text: Seq<char>) -> Option<(Seq<char>, Seq<char>, Option<Seq<char>>, Option<u16>)>;

/// Whether `s` is a nonempty run of ASCII letters and digits.
pub open spec fn is_plain_name(s: Seq<char>) -> bool {
    s.len() > 0 && forall|k: int| 0 <= k < s.len() ==> is_ascii_alphanumeric(#[trigger] s[k])
}

/// Whether `s` is a nonempty run of lower-case ASCII letters, ASCII digits,
/// `.` and `-`: a host name, or an IPv4 address, as written.
pub open spec fn is_plain_host(s: Seq<char>) -> bool {
    s.len() > 0 && forall|k: int|
        0 <= k < s.len() ==> ((#[trigger] s[k] >= 'a' && s[k] <= 'z') || (s[k] >= '0' && s[k] <= '9')
            || s[k] == '.' || s[k] == '-')
}

/// `ssh://{user}@{rest}`: an SSH URL that names a user.
pub open spec fn ssh_url_text(user: Seq<char>, rest: Seq<char>) -> Seq<char> {
    "ssh://"@ + user + "@"@ + rest
}

/// `ssh://{user}@{host}/`.
pub open spec fn ssh_host_url(user: Seq<char>, host: Seq<char>) -> Seq<char> {
    "ssh://"@ + user + "@"@ + host + "/"@
}

/// Whether a parse of `text` that succeeds gives a host, whenever `text` is
/// an SSH URL that names a plain user.
pub open spec fn user_url_has_host(text: Seq<char>, r: Option<UrlParts>) -> bool {
    forall|user: Seq<char>, rest: Seq<char>|
        is_plain_name(user) && text == #[trigger] ssh_url_text(user, rest) && r is Some
            ==> (r matches Some(u) && u.host is Some)
}

/// Whether the parse of `text` gives scheme `ssh`, the user, the host and no
/// port, whenever `text` is `ssh://{user}@{host}/` with a plain user and
/// host.
pub open spec fn plain_ssh_url_parts(text: Seq<char>, r: Option<UrlParts>) -> bool {
    forall|user: Seq<char>, host: Seq<char>|
        is_plain_name(user) && is_plain_host(host) && text == #[trigger] ssh_host_url(user, host)
            ==> (r matches Some(u) && u.scheme@ == "ssh"@ && u.username@ == user && opt_view(u.host) == Some(host)
            && u.port is None)
}

/// `url::Url::parse`, read through `scheme`, `username`, `host_str` and
/// `port`. The contract names the result and states two facts of the
/// crate's parser: a URL whose authority holds a user name parses only with
/// a host (an empty host there is refused), whatever the host is, a domain
/// or an IP address; and `ssh://{user}@{host}/`, with a plain user name and
/// a host of lower-case letters, digits, dots and hyphens (a host name or an
/// IPv4 address, kept as written since `ssh` is not a special scheme),
/// parses to that scheme, user and host, with no port. Beyond these the
/// parse is not restated.
#[verifier::external_body]
fn url_parse(text: &str) -> (r: Option<UrlParts>)
    ensures
        r is None <==> spec_url_parse(text@) is None,
        r matches Some(u) ==> spec_url_parse(text@) == Some(url_view(u)),
        user_url_has_host(text@, r),
        plain_ssh_url_parts(text@, r),
{
    let url = url::Url::parse(text).ok()?;
    Some(UrlParts {
        scheme: url.scheme().to_string(),
        username: url.username().to_string(),
        host: url.host_str().map(str::to_string),
        port: url.port(),
    })
}

// ---------------------------------------------------------------------------
// The remote host
// ---------------------------------------------------------------------------

/// A host reached with `ssh` as a user, on a port.
#[derive(Debug)]
pub struct SSHInstance {
    pub user: String,
    pub host: String,
    pub port: u16,
}

/// `{user}@{host}`.
pub open spec fn user_host_spec(user: Seq<char>, host: Seq<char>) -> Seq<char> {
    user + seq!['@'] + host
}

/// The arguments that name the remote end of an `ssh` command:
/// `{user}@{host}`, preceded by `-p {port}` unless the port is 22.
pub open spec fn ssh_target_args_spec(user: Seq<char>, host: Seq<char>, port: u16) -> Seq<Seq<char>> {
    if port == 22 {
        seq![user_host_spec(user, host)]
    } else {
        seq!["-p"@, nat_decimal(port as nat), user_host_spec(user, host)]
    }
}

/// `{user}@{host}:{path}`, preceded by `-p {port} ` unless the port is 22.
pub open spec fn ssh_str_spec(user: Seq<char>, host: Seq<char>, port: u16, path: Seq<char>) -> Seq<char> {
    let target = user_host_spec(user, host) + seq![':'] + path;
    if port == 22 {
        target
    } else {
        "-p "@ + nat_decimal(port as nat) + seq![' '] + target
    }
}

impl SSHInstance {
    /// The host `host` reached as `user` on `port`.
    pub fn new(user: &str, host: &str, port: u16) -> (r: SSHInstance)
        ensures
            r.user@ == user@,
            r.host@ == host@,
            r.port == port,
    {
        SSHInstance { user: to_owned_string(user), host: to_owned_string(host), port }
    }

    /// The host a URL names, as its user, on its port (22 when it gives
    /// none); none when the URL has no host.
    pub fn from_url(url: &UrlParts) -> (r: Option<SSHInstance>)
        ensures
            url.host is None ==> r is None,
            url.host matches Some(h) ==> (r matches Some(s) && s.user@ == url.username@ && s.host@ == h@
                && s.port == match url.port {
                Some(p) => p,
                None => 22u16,
            }),
    {
        match &url.host {
            Some(h) => {
                let port = match url.port {
                    Some(p) => p,
                    None => 22,
                };
                Some(SSHInstance::new(url.username.as_str(), h.as_str(), port))
            },
            None => None,
        }
    }

    /// `{user}@{host}`.
    fn user_host(&self) -> (r: String)
        ensures
            r@ == user_host_spec(self.user@, self.host@),
    {
        let mut s = to_owned_string(self.user.as_str());
        push_char(&mut s, '@');
        push_str(&mut s, self.host.as_str());
        s
    }

    /// The remote path `path` as `scp` and `rsync` take it.
    pub fn get_ssh_str(&self, path: &str) -> (r: String)
        ensures
            r@ == ssh_str_spec(self.user@, self.host@, self.port, path@),
    {
        let mut s = String::new();
        if self.port != 22 {
            push_str(&mut s, "-p ");
            push_decimal(&mut s, self.port as u64);
            push_char(&mut s, ' ');
        }
        let t = self.user_host();
        push_str(&mut s, t.as_str());
        push_char(&mut s, ':');
        push_str(&mut s, path);
        proof {
            reveal_strlit("-p ");
        }
        assert(s@ =~= ssh_str_spec(self.user@, self.host@, self.port, path@));
        s
    }

    /// The arguments that name the remote end of an `ssh` command.
    pub fn get_ssh_username_host(&self) -> (r: Vec<String>)
        ensures
            views(r@) == ssh_target_args_spec(self.user@, self.host@, self.port),
    {
        let user_host = self.user_host();
        let mut v: Vec<String> = Vec::new();
        if self.port != 22 {
            v.push(to_owned_string("-p"));
            let mut p = String::new();
            push_decimal(&mut p, self.port as u64);
            v.push(p);
        }
        v.push(user_host);
        proof {
            reveal_strlit("-p");
        }
        assert(views(v@) =~= ssh_target_args_spec(self.user@, self.host@, self.port));
        v
    }

    /// The arguments of `ssh` that run `cmd` on the host.
    pub fn command_args(&self, cmd: &str) -> (r: Vec<String>)
        ensures
            views(r@) == ssh_target_args_spec(self.user@, self.host@, self.port).push(cmd@),
    {
        let mut v = self.get_ssh_username_host();
        let ghost before = v@;
        v.push(to_owned_string(cmd));
        assert(views(v@) =~= views(before).push(cmd@));
        v
    }

    /// A line the remote command printed, as it is echoed locally:
    /// `ssh://{user}@{host}{line}`.
    pub fn echoed_line(&self, line: &str) -> (r: String)
        ensures
            r@ == "ssh://"@ + user_host_spec(self.user@, self.host@) + line@,
    {
        let mut s = to_owned_string("ssh://");
        let t = self.user_host();
        push_str(&mut s, t.as_str());
        push_str(&mut s, line);
        s
    }
}

/// The command that prints the remote cache, one JSON note per line.
pub fn remote_serialize_command() -> (r: &'static str)
    ensures
        r@ == "/usr/bin/diary-app-rust ser"@,
{
    "/usr/bin/diary-app-rust ser"
}

/// The command that empties the remote cache.
pub fn remote_clear_command() -> (r: &'static str)
    ensures
        r@ == "/usr/bin/diary-app-rust clear"@,
{
    "/usr/bin/diary-app-rust clear"
}

/// Where the notes of the remote cache come from.
#[derive(Debug)]
pub enum SshSource {
    /// No SSH URL is set, it does not parse, or its scheme is not `ssh`:
    /// nothing is fetched.
    Skip,
    /// The URL names no host (`Failed to parse url`).
    NoHost,
    /// The host to fetch from.
    Remote(SSHInstance),
}

/// Where the notes come from, given the parts of the SSH URL (none when no
/// URL is set or it does not parse).
pub open spec fn source_spec(u: Option<(Seq<char>, Seq<char>, Option<Seq<char>>, Option<u16>)>, r: SshSource) -> bool {
    match u {
        None => r is Skip,
        Some(u) => if u.0 != "ssh"@ {
            r is Skip
        } else {
            match u.2 {
                None => r is NoHost,
                Some(h) => (r matches SshSource::Remote(s) && s.user@ == u.1 && s.host@ == h
                    && s.port == match u.3 {
                    Some(p) => p,
                    None => 22u16,
                }),
            }
        },
    }
}

/// Decides where the notes come from once the SSH URL has been parsed:
/// nothing unless its scheme is `ssh`; an error when it names no host.
pub fn source_from_url(url: Option<UrlParts>) -> (r: SshSource)
    ensures
        source_spec(
            match url {
                Some(u) => Some(url_view(u)),
                None => None,
            },
            r,
        ),
{
    let u = match url {
        Some(u) => u,
        None => return SshSource::Skip,
    };
    let scheme = str_chars(u.scheme.as_str());
    if !crate::commands::chars_equal(&scheme, "ssh") {
        return SshSource::Skip;
    }
    match SSHInstance::from_url(&u) {
        Some(s) => SshSource::Remote(s),
        None => SshSource::NoHost,
    }
}

/// Reads the SSH URL of the settings: where the remote notes come from.
///
/// An SSH URL that names a user never counts as naming no host, whether its
/// host is a name or an IP address; `ssh://{user}@{host}/` with a plain user
/// and host gives that host, reached as that user on port 22.
pub fn ssh_source(ssh_url: Option<&str>) -> (r: SshSource)
    ensures
        match ssh_url {
            None => r is Skip,
            Some(t) => source_spec(spec_url_parse(t@), r),
        },
        ssh_url matches Some(t) ==> forall|user: Seq<char>, rest: Seq<char>|
            is_plain_name(user) && t@ == #[trigger] ssh_url_text(user, rest) ==> !(r is NoHost),
        ssh_url matches Some(t) ==> forall|user: Seq<char>, host: Seq<char>|
            is_plain_name(user) && is_plain_host(host) && t@ == #[trigger] ssh_host_url(user, host)
                ==> (r matches SshSource::Remote(s) && s.user@ == user && s.host@ == host && s.port == 22),
{
    match ssh_url {
        Some(t) => {
            let parsed = url_parse(t);
            let ghost pv = parsed;
            let r = source_from_url(parsed);
            proof {
                assert forall|user: Seq<char>, rest: Seq<char>|
                    is_plain_name(user) && t@ == #[trigger] ssh_url_text(user, rest) implies !(r is NoHost) by {
                    assert(pv is Some ==> pv->Some_0.host is Some);
                }
                assert forall|user: Seq<char>, host: Seq<char>|
                    is_plain_name(user) && is_plain_host(host) && t@ == #[trigger] ssh_host_url(user, host)
                    implies (r matches SshSource::Remote(s) && s.user@ == user && s.host@ == host && s.port == 22) by {
                    assert(pv is Some);
                }
            }
            r
        },
        None => SshSource::Skip,
    }
}

// ---------------------------------------------------------------------------
// What the remote command prints
// ---------------------------------------------------------------------------

/// The pieces of `s` between newline bytes (`<[u8]>::split`): one more than
/// there are newlines.
pub open spec fn split_newlines(s: Seq<u8>) -> Seq<Seq<u8>>
    decreases s.len(),
{
    if s.len() == 0 {
        seq![Seq::<u8>::empty()]
    } else {
        let r = split_newlines(s.drop_last());
        if s.last() == 10u8 {
            r.push(Seq::<u8>::empty())
        } else {
            r.update(r.len() - 1, r.last().push(s.last()))
        }
    }
}

/// There is always at least one piece.
proof fn lemma_split_newlines_len(s: Seq<u8>)
    ensures
        split_newlines(s).len() >= 1,
    decreases s.len(),
{
    if s.len() > 0 {
        lemma_split_newlines_len(s.drop_last());
    }
}

/// The lines printed by a remote command: none for empty output, else each
/// piece between newlines decoded as UTF-8; `None` if a piece is not UTF-8.
pub open spec fn stdout_lines_spec(s: Seq<u8>) -> Option<Seq<Seq<char>>> {
    if s.len() == 0 {
        Some(Seq::empty())
    } else if forall|k: int| 0 <= k < split_newlines(s).len() ==> valid_utf8(#[trigger] split_newlines(s)[k]) {
        Some(split_newlines(s).map_values(|b: Seq<u8>| decode_utf8(b)))
    } else {
        None
    }
}

/// `std::str::from_utf8(bytes)`, owned: the text the bytes encode, none when
/// they are not UTF-8.
#[verifier::external_body]
fn utf8_text(bytes: &Vec<u8>) -> (r: Option<String>)
    ensures
        r is Some <==> valid_utf8(bytes@),
        r matches Some(s) ==> s@ == decode_utf8(bytes@),
{
    std::str::from_utf8(bytes.as_slice()).ok().map(str::to_owned)
}

/// The lines of the standard output of a remote command.
pub fn stdout_lines(stdout: &Vec<u8>) -> (r: Option<Vec<String>>)
    ensures
        match r {
            Some(v) => stdout_lines_spec(stdout@) == Some(views(v@)),
            None => stdout_lines_spec(stdout@) is None,
        },
{
    let mut out: Vec<String> = Vec::new();
    if stdout.len() == 0 {
        assert(views(out@) =~= Seq::<Seq<char>>::empty());
        return Some(out);
    }
    let ghost done: Seq<Seq<u8>> = Seq::empty();
    let mut cur: Vec<u8> = Vec::new();
    let mut i: usize = 0;
    proof {
        assert(stdout@.take(0) =~= Seq::<u8>::empty());
        assert(split_newlines(stdout@.take(0)) =~= done.push(cur@));
    }
    while i < stdout.len()
        invariant
            i <= stdout@.len(),
            split_newlines(stdout@.take(i as int)) == done.push(cur@),
            forall|k: int| 0 <= k < done.len() ==> valid_utf8(#[trigger] done[k]),
            views(out@) == done.map_values(|b: Seq<u8>| decode_utf8(b)),
        decreases stdout@.len() - i,
    {
        let c = stdout[i];
        proof {
            let t = stdout@.take(i + 1);
            assert(t.drop_last() =~= stdout@.take(i as int));
            assert(t.last() == c);
        }
        if c == 10u8 {
            match utf8_text(&cur) {
                Some(line) => {
                    let ghost before = out@;
                    let ghost lv = line@;
                    out.push(line);
                    proof {
                        let nd = done.push(cur@);
                        assert(views(out@) =~= views(before).push(lv));
                        assert(nd.map_values(|b: Seq<u8>| decode_utf8(b)) =~= done.map_values(|b: Seq<u8>| decode_utf8(b)).push(decode_utf8(cur@)));
                        assert(views(out@) =~= nd.map_values(|b: Seq<u8>| decode_utf8(b)));
                        assert forall|k: int| 0 <= k < nd.len() implies valid_utf8(#[trigger] nd[k]) by {
                            if k < done.len() {
                                assert(nd[k] == done[k]);
                            }
                        }
                        done = nd;
                    }
                    cur = Vec::new();
                    proof {
                        assert(split_newlines(stdout@.take(i + 1)) =~= done.push(cur@));
                    }
                },
                None => {
                    proof {
                        let n = stdout@.len() as int;
                        lemma_split_prefix(stdout@, i + 1, n);
                        assert(split_newlines(stdout@.take(i + 1)) =~= done.push(cur@).push(Seq::<u8>::empty()));
                        assert(split_newlines(stdout@.take(i + 1))[done.len() as int] == cur@);
                        assert(stdout@.take(n) =~= stdout@);
                        assert(split_newlines(stdout@)[done.len() as int] == cur@);
                        assert(!valid_utf8(split_newlines(stdout@)[done.len() as int]));
                    }
                    return None;
                },
            }
        } else {
            let ghost before = cur@;
            cur.push(c);
            proof {
                assert(split_newlines(stdout@.take(i + 1)) =~= done.push(cur@));
            }
        }
        i += 1;
    }
    proof {
        assert(stdout@.take(stdout@.len() as int) =~= stdout@);
    }
    match utf8_text(&cur) {
        Some(line) => {
            let ghost before = out@;
            let ghost lv = line@;
            out.push(line);
            proof {
                let nd = done.push(cur@);
                assert(views(out@) =~= views(before).push(lv));
                assert(nd.map_values(|b: Seq<u8>| decode_utf8(b)) =~= done.map_values(|b: Seq<u8>| decode_utf8(b)).push(decode_utf8(cur@)));
                assert(views(out@) =~= nd.map_values(|b: Seq<u8>| decode_utf8(b)));
                assert forall|k: int| 0 <= k < nd.len() implies valid_utf8(#[trigger] nd[k]) by {
                    if k < done.len() {
                        assert(nd[k] == done[k]);
                    }
                }
            }
            Some(out)
        },
        None => {
            proof {
                assert(split_newlines(stdout@)[done.len() as int] == cur@);
            }
            None
        },
    }
}

/// Growing the text only changes the last of the pieces of a prefix or
/// adds pieces after it.
proof fn lemma_split_prefix(s: Seq<u8>, m: int, n: int)
    requires
        0 <= m <= n <= s.len(),
    ensures
        split_newlines(s.take(n)).len() >= split_newlines(s.take(m)).len(),
        forall|k: int| 0 <= k < split_newlines(s.take(m)).len() - 1
            ==> split_newlines(s.take(n))[k] == #[trigger] split_newlines(s.take(m))[k],
    decreases n - m,
{
    if m < n {
        lemma_split_prefix(s, m, n - 1);
        assert(s.take(n).drop_last() =~= s.take(n - 1));
        lemma_split_newlines_len(s.take(n - 1));
    }
}


/// Pieces written one after another with a newline byte between
/// neighbours.
pub open spec fn join_newlines(pieces: Seq<Seq<u8>>) -> Seq<u8>
    decreases pieces.len(),
{
    if pieces.len() == 0 {
        Seq::empty()
    } else if pieces.len() == 1 {
        pieces[0]
    } else {
        join_newlines(pieces.drop_last()) + seq![10u8] + pieces.last()
    }
}

/// Splitting at newlines loses nothing: the pieces joined by newlines give
/// the output back, so the lines of a remote command are all it printed.
pub proof fn law_split_newlines_lossless(s: Seq<u8>)
    ensures
        join_newlines(split_newlines(s)) == s,
    decreases s.len(),
{
    if s.len() > 0 {
        let t = s.drop_last();
        law_split_newlines_lossless(t);
        lemma_split_newlines_len(t);
        let p = split_newlines(t);
        if s.last() == 10u8 {
            let q = p.push(Seq::<u8>::empty());
            assert(q.drop_last() =~= p);
            assert(join_newlines(q) =~= t + seq![10u8]);
        } else {
            let x = p.last().push(s.last());
            let q = p.update(p.len() - 1, x);
            if p.len() == 1 {
                assert(join_newlines(q) =~= x);
                assert(p[0] =~= t);
            } else {
                assert(q.drop_last() =~= p.drop_last());
                assert(join_newlines(p) == join_newlines(p.drop_last()) + seq![10u8] + p.last());
                assert(join_newlines(q) =~= join_newlines(p) + seq![s.last()]);
            }
        }
        assert(t.push(s.last()) =~= s);
    }
}

} // verus!
