//! Which competition server to talk to, and the addresses on it.

use vstd::prelude::*;

use crate::encoding::{
    law_encoded_is_url_safe, law_url_encoding_is_injective, url_encoded, url_safe, urlencode,
};
use crate::failure::{told_alike, Failure, FailureView};
use crate::text::{
    characters, is_core, is_white_space, law_trimmed, law_without_trailing, lemma_same_words,
    lemma_same_words_two, same_words, slice_text, starts_with, trim, trim_end_matches, trimmed,
    trimmed_end, trimmed_start, without_trailing,
};

verus! {

/// The server of the competition.
pub const DEFAULT_SERVER: &'static str = "https://micro2026-api.duckdns.org:7777";

/// The address that the user gave: the flag before the environment before the default.
pub open spec fn chosen_server(flag: Option<Seq<char>>, environment: Option<Seq<char>>) -> Seq<
    char,
> {
    match (flag, environment) {
        (Some(s), _) => s,
        (None, Some(s)) => s,
        (None, None) => DEFAULT_SERVER@,
    }
}

/// The address without white space around it and without slashes at its end.
pub open spec fn bare_address(raw: Seq<char>) -> Seq<char> {
    without_trailing(trimmed(raw), '/')
}

/// The address is that of something on the web.
pub open spec fn is_http(address: Seq<char>) -> bool {
    "http://"@.is_prefix_of(address) || "https://"@.is_prefix_of(address)
}

/// How long the scheme of the address is, with the two slashes behind it.
pub open spec fn scheme_len(address: Seq<char>) -> nat {
    if "https://"@.is_prefix_of(address) {
        "https://"@.len()
    } else {
        "http://"@.len()
    }
}

/// The character ends the host and port of an address.
pub open spec fn ends_host(c: char) -> bool {
    c == '/' || c == '?' || c == '#'
}

/// The address up to the first character at or behind `from` that ends its host and port.
pub open spec fn up_to_host_end(address: Seq<char>, from: nat) -> Seq<char>
    decreases address.len() - from,
{
    if from >= address.len() {
        address
    } else if ends_host(address[from as int]) {
        address.take(from as int)
    } else {
        up_to_host_end(address, from + 1)
    }
}

/// Where the first character at or behind `from` stands that is no slash.
pub open spec fn behind_slashes(address: Seq<char>, from: nat) -> nat
    decreases address.len() - from,
{
    if from < address.len() && address[from as int] == '/' {
        behind_slashes(address, from + 1)
    } else {
        from
    }
}

/// Where the host of the address starts. Slashes behind those of the scheme count for
/// nothing: the host of `https:///x` is `x`.
pub open spec fn host_start(address: Seq<char>) -> nat {
    behind_slashes(address, scheme_len(address))
}

/// The address has a host that is not empty.
pub open spec fn has_host(address: Seq<char>) -> bool {
    host_start(address) < address.len() && !ends_host(address[host_start(address) as int])
}

/// The address up to the end of its host and port. An address without a host, such as
/// `https://?x`, has no origin and is left as it is.
pub open spec fn origin(address: Seq<char>) -> Seq<char> {
    if has_host(address) {
        up_to_host_end(address, host_start(address))
    } else {
        address
    }
}

/// The server that an address stands for, or why it stands for none.
pub open spec fn server_at(raw: Seq<char>) -> Result<Seq<char>, FailureView> {
    if is_http(bare_address(raw)) {
        Ok(origin(bare_address(raw)))
    } else {
        Err(FailureView::usage("Server must be an http(s) URL: "@ + raw))
    }
}

/// Whether `c` ends the host and port of an address.
fn host_end(c: char) -> (r: bool)
    ensures
        r == ends_host(c),
{
    c == '/' || c == '?' || c == '#'
}

/// An address on the web up to the end of its host and port.
fn cut_to_origin(address: &str) -> (r: String)
    requires
        is_http(address@),
    ensures
        r@ == origin(address@),
{
    proof {
        reveal_strlit("https://");
        reveal_strlit("http://");
    }
    let v: Vec<char> = characters(address);
    let mut start: usize = if starts_with(address, "https://") {
        8
    } else {
        7
    };
    while start < v.len() && v[start] == '/'
        invariant
            v@ == address@,
            start <= v.len(),
            behind_slashes(address@, start as nat) == host_start(address@),
        decreases v.len() - start,
    {
        start = start + 1;
    }
    if start >= v.len() || host_end(v[start]) {
        return address.to_owned();
    }
    let mut end: usize = start;
    while end < v.len() && !host_end(v[end])
        invariant
            v@ == address@,
            end <= v.len(),
            up_to_host_end(address@, end as nat) == origin(address@),
        decreases v.len() - end,
    {
        end = end + 1;
    }
    assert(address@.take(address@.len() as int) == address@);
    let cut: &str = address.substring_char(0, end);
    assert(cut@ == address@.take(end as int));
    cut.to_owned()
}

/// The server to talk to, from the command line flag and the environment variable: its
/// origin, without slashes at the end and without a path. An address without a host is only
/// freed of white space around it and of slashes at its end.
pub fn resolve_server(flag: Option<&str>, environment: Option<&str>) -> (r: Result<String, Failure>)
    ensures
        match (r, server_at(chosen_server(slice_text(flag), slice_text(environment)))) {
            (Ok(server), Ok(expected)) => server@ == expected,
            (Err(failure), Err(expected)) => failure@ == expected,
            _ => false,
        },
{
    let raw: &str = match flag {
        Some(given) => given,
        None => match environment {
            Some(given) => given,
            None => DEFAULT_SERVER,
        },
    };
    let stripped: String = trim(raw);
    let address: String = trim_end_matches(stripped.as_str(), '/');
    if starts_with(address.as_str(), "http://") || starts_with(address.as_str(), "https://") {
        Ok(cut_to_origin(address.as_str()))
    } else {
        Err(Failure::usage("Server must be an http(s) URL: ".to_owned().concat(raw)))
    }
}

proof fn lemma_up_to_host_end(address: Seq<char>, from: nat)
    requires
        from <= address.len(),
    ensures
        from <= up_to_host_end(address, from).len() <= address.len(),
        up_to_host_end(address, from).is_prefix_of(address),
        forall|i: int|
            from <= i < up_to_host_end(address, from).len() ==> !ends_host(
                #[trigger] up_to_host_end(address, from)[i],
            ),
        up_to_host_end(address, from).len() < address.len() ==> ends_host(
            address[up_to_host_end(address, from).len() as int],
        ),
    decreases address.len() - from,
{
    if from < address.len() && !ends_host(address[from as int]) {
        lemma_up_to_host_end(address, from + 1);
        let cut = up_to_host_end(address, from);
        assert(cut == up_to_host_end(address, from + 1));
        assert(cut[from as int] == address[from as int]) by {
            assert(cut[from as int] == address.subrange(0, cut.len() as int)[from as int]);
        }
    } else {
        assert(address.subrange(0, address.len() as int) =~= address);
    }
}

proof fn lemma_behind_slashes(address: Seq<char>, from: nat)
    requires
        from <= address.len(),
    ensures
        from <= behind_slashes(address, from) <= address.len(),
        forall|i: int| from <= i < behind_slashes(address, from) ==> #[trigger] address[i] == '/',
        behind_slashes(address, from) < address.len()
            ==> address[behind_slashes(address, from) as int] != '/',
    decreases address.len() - from,
{
    if from < address.len() && address[from as int] == '/' {
        lemma_behind_slashes(address, from + 1);
    }
}

/// A beginning that reaches behind the slashes has the same slashes as the whole.
proof fn lemma_same_slashes(a: Seq<char>, b: Seq<char>, from: nat)
    requires
        a.is_prefix_of(b),
        behind_slashes(b, from) < a.len(),
    ensures
        behind_slashes(a, from) == behind_slashes(b, from),
    decreases b.len() - from,
{
    assert(forall|i: int| 0 <= i < a.len() ==> a[i] == b.subrange(0, a.len() as int)[i]);
    if from < b.len() && b[from as int] == '/' {
        lemma_same_slashes(a, b, from + 1);
        lemma_behind_slashes(b, from + 1);
    }
}

proof fn lemma_without_trailing(s: Seq<char>, c: char)
    ensures
        without_trailing(s, c).len() > 0 ==> without_trailing(s, c).last() != c,
    decreases s.len(),
{
    if s.len() > 0 && s.last() == c {
        lemma_without_trailing(s.drop_last(), c);
    }
}

/// A resolved server begins like the address that was given and does not end in a slash,
/// so that what is put behind it never follows a slash. If the address has a host, the
/// server is an origin: it has that host, which is not empty, and holds no path, query or
/// fragment. An address without a host is kept as it is.
pub proof fn law_server_is_an_origin(raw: Seq<char>)
    requires
        server_at(raw) is Ok,
    ensures
        ({
            let address = bare_address(raw);
            let server = server_at(raw)->Ok_0;
            &&& is_http(server)
            &&& server.is_prefix_of(address)
            &&& server.last() != '/'
            &&& if has_host(address) {
                &&& has_host(server)
                &&& host_start(server) == host_start(address)
                &&& forall|i: int|
                    host_start(server) <= i < server.len() ==> !ends_host(#[trigger] server[i])
            } else {
                server == address
            }
        }),
{
    let address = bare_address(raw);
    let server = origin(address);
    let start = host_start(address);
    reveal_strlit("https://");
    reveal_strlit("http://");
    lemma_without_trailing(trimmed(raw), '/');
    lemma_behind_slashes(address, scheme_len(address));
    if has_host(address) {
        lemma_up_to_host_end(address, start);
        assert(up_to_host_end(address, start) == up_to_host_end(address, start + 1));
        lemma_up_to_host_end(address, start + 1);
        assert forall|p: Seq<char>| p.is_prefix_of(address) && p.len() <= server.len() implies #[trigger]
        p.is_prefix_of(server) by {
            assert(server.subrange(0, p.len() as int) =~= address.subrange(0, p.len() as int));
        }
        assert("https://"@.is_prefix_of(server) ==> "https://"@.is_prefix_of(address)) by {
            if "https://"@.is_prefix_of(server) {
                assert(address.subrange(0, 8) =~= server.subrange(0, 8));
            }
        }
        lemma_same_slashes(server, address, scheme_len(address));
        assert(!ends_host(server[server.len() - 1]));
    } else {
        assert(address.subrange(0, address.len() as int) =~= address);
    }
}

/// A slash at the end of the address makes no difference, unless white space stands
/// between the two.
pub proof fn law_trailing_slash_is_ignored(raw: Seq<char>)
    requires
        raw.len() > 0 && is_white_space(raw.last()) ==> trimmed(raw).len() == 0,
    ensures
        bare_address(raw.push('/')) == bare_address(raw),
        server_at(raw) is Ok ==> server_at(raw.push('/')) == server_at(raw),
        server_at(raw) is Err ==> server_at(raw.push('/')) is Err,
{
    let t = trimmed_start(raw);
    lemma_trimmed_start_push(raw, '/');
    assert(trimmed_end(t.push('/')) == t.push('/'));
    assert(t.push('/').drop_last() == t);
    if trimmed(raw).len() == 0 {
        lemma_all_trimmed(raw);
    } else {
        if raw.len() > 0 {
            lemma_trimmed_start_last(raw);
        }
        assert(trimmed_end(t) == t);
    }
}

proof fn lemma_trimmed_start_push(s: Seq<char>, c: char)
    requires
        !is_white_space(c),
    ensures
        trimmed_start(s.push(c)) == trimmed_start(s).push(c),
    decreases s.len(),
{
    if s.len() == 0 {
        assert(s.push(c).first() == c);
    } else if is_white_space(s.first()) {
        assert(s.push(c).drop_first() == s.drop_first().push(c));
        lemma_trimmed_start_push(s.drop_first(), c);
    }
}

/// Where nothing is left of a text, nothing is left once its start is trimmed.
proof fn lemma_all_trimmed(s: Seq<char>)
    requires
        trimmed(s).len() == 0,
    ensures
        trimmed_start(s).len() == 0,
    decreases s.len(),
{
    if s.len() > 0 && is_white_space(s.first()) {
        lemma_all_trimmed(s.drop_first());
    } else if s.len() > 0 {
        lemma_first_stays(s);
    }
}

proof fn lemma_first_stays(s: Seq<char>)
    requires
        s.len() > 0,
        !is_white_space(s.first()),
    ensures
        trimmed_end(s).len() > 0,
    decreases s.len(),
{
    if is_white_space(s.last()) {
        lemma_first_stays(s.drop_last());
    }
}

proof fn lemma_trimmed_start_last(s: Seq<char>)
    requires
        s.len() > 0,
        !is_white_space(s.last()),
    ensures
        trimmed_start(s).len() > 0,
        trimmed_start(s).last() == s.last(),
    decreases s.len(),
{
    if is_white_space(s.first()) {
        assert(s.drop_first().last() == s.last());
        lemma_trimmed_start_last(s.drop_first());
    }
}

/// Where a login starts.
pub open spec fn login_start_address(server: Seq<char>) -> Seq<char> {
    server + "/api/cli-auth/start"@
}

/// Where to ask whether a login has finished.
pub open spec fn login_poll_address(server: Seq<char>, device_code: Seq<char>) -> Seq<char> {
    server + "/api/cli-auth/poll?device_code="@ + url_encoded(device_code)
}

/// A request that costs the server nothing.
pub open spec fn health_address(server: Seq<char>) -> Seq<char> {
    server + "/api/health"@
}

/// Where submissions are sent and listed.
pub open spec fn submissions_address(server: Seq<char>) -> Seq<char> {
    server + "/api/submissions"@
}

/// Where one submission is described.
pub open spec fn submission_address(server: Seq<char>, id: Seq<char>) -> Seq<char> {
    server + "/api/submissions/"@ + url_encoded(id)
}

/// Where the log of one submission is.
pub open spec fn log_address(server: Seq<char>, id: Seq<char>) -> Seq<char> {
    server + "/api/submissions/"@ + url_encoded(id) + "/log"@
}

/// The value of the header that carries the token.
pub open spec fn bearer(token: Seq<char>) -> Seq<char> {
    "Bearer "@ + token
}

/// Where a login starts.
pub fn login_start_url(server: &str) -> (r: String)
    ensures
        r@ == login_start_address(server@),
{
    server.to_owned().concat("/api/cli-auth/start")
}

/// Where to ask whether a login has finished.
pub fn login_poll_url(server: &str, device_code: &str) -> (r: String)
    ensures
        r@ == login_poll_address(server@, device_code@),
{
    let code: String = urlencode(device_code);
    server.to_owned().concat("/api/cli-auth/poll?device_code=").concat(code.as_str())
}

/// A request that costs the server nothing.
pub fn health_url(server: &str) -> (r: String)
    ensures
        r@ == health_address(server@),
{
    server.to_owned().concat("/api/health")
}

/// Where submissions are sent and listed.
pub fn submissions_url(server: &str) -> (r: String)
    ensures
        r@ == submissions_address(server@),
{
    server.to_owned().concat("/api/submissions")
}

/// Where one submission is described.
pub fn submission_url(server: &str, id: &str) -> (r: String)
    ensures
        r@ == submission_address(server@, id@),
{
    let encoded: String = urlencode(id);
    server.to_owned().concat("/api/submissions/").concat(encoded.as_str())
}

/// Where the log of one submission is.
pub fn log_url(server: &str, id: &str) -> (r: String)
    ensures
        r@ == log_address(server@, id@),
{
    let encoded: String = urlencode(id);
    server.to_owned().concat("/api/submissions/").concat(encoded.as_str()).concat("/log")
}

/// The value of the header that carries the token.
pub fn authorization(token: &str) -> (r: String)
    ensures
        r@ == bearer(token@),
{
    "Bearer ".to_owned().concat(token)
}

/// What stands between a beginning and an end that are the same is the same.
proof fn lemma_same_middle(front: Seq<char>, a: Seq<char>, b: Seq<char>, back: Seq<char>)
    requires
        front + a + back == front + b + back,
    ensures
        a == b,
{
    let (x, y) = (front + a + back, front + b + back);
    let (from, to) = (front.len() as int, x.len() - back.len());
    assert(x.subrange(from, to) =~= a);
    assert(y.subrange(from, to) =~= b);
}

/// On one server two different submissions have different addresses, and so have their
/// logs and two different logins; and no submission has the address of a log.
pub proof fn law_addresses_tell_apart(server: Seq<char>, a: Seq<char>, b: Seq<char>)
    ensures
        submission_address(server, a) == submission_address(server, b) ==> a == b,
        log_address(server, a) == log_address(server, b) ==> a == b,
        login_poll_address(server, a) == login_poll_address(server, b) ==> a == b,
        submission_address(server, a) != log_address(server, b),
{
    let (x, y) = (url_encoded(a), url_encoded(b));
    let one = server + "/api/submissions/"@;
    let poll = server + "/api/cli-auth/poll?device_code="@;
    let nothing = Seq::<char>::empty();
    if x == y {
        law_url_encoding_is_injective(a, b);
    }
    if one + x == one + y {
        assert(one + x + nothing =~= one + y + nothing);
        lemma_same_middle(one, x, y, nothing);
    }
    if one + x + "/log"@ == one + y + "/log"@ {
        lemma_same_middle(one, x, y, "/log"@);
    }
    if poll + x == poll + y {
        assert(poll + x + nothing =~= poll + y + nothing);
        lemma_same_middle(poll, x, y, nothing);
    }
    if one + x == one + y + "/log"@ {
        assert(one + x + nothing =~= one + (y + "/log"@) + nothing);
        lemma_same_middle(one, x, y + "/log"@, nothing);
        reveal_strlit("/log");
        law_encoded_is_url_safe(vstd::utf8::encode_utf8(a));
        assert(x[y.len() as int] == '/');
        assert(url_safe(x[y.len() as int]));
    }
}

/// The flag is used if it is given, whatever the environment says; the environment is used
/// if there is no flag.
pub proof fn law_flag_before_environment(flag: Seq<char>, environment: Option<Seq<char>>)
    ensures
        chosen_server(Some(flag), environment) == flag,
        environment matches Some(address) ==> chosen_server(None, environment) == address,
{
}

/// Part `from..to` of a text is all of it but the white space around it and the slashes
/// before the white space at its end.
pub open spec fn is_bare(raw: Seq<char>, from: int, to: int, end: int) -> bool {
    &&& is_core(raw, from, end)
    &&& from <= to <= end
    &&& forall|i: int| to <= i < end ==> #[trigger] raw[i] == '/'
    &&& from < to ==> raw[to - 1] != '/'
}

/// Of an address nothing is taken off but white space around it and slashes at its end.
pub proof fn law_bare_address(raw: Seq<char>)
    ensures
        exists|from: int, to: int, end: int| #[trigger]
            is_bare(raw, from, to, end) && bare_address(raw) == raw.subrange(from, to),
{
    law_trimmed(raw);
    let (from, end) = choose|from: int, to: int| #[trigger]
        is_core(raw, from, to) && trimmed(raw) == raw.subrange(from, to);
    let t = trimmed(raw);
    law_without_trailing(t, '/');
    let to = from + without_trailing(t, '/').len();
    assert(bare_address(raw) == t.subrange(0, to - from));
    assert(bare_address(raw) =~= raw.subrange(from, to));
    assert forall|i: int| to <= i < end implies #[trigger] raw[i] == '/' by {
        assert(t[i - from] == raw[i]);
    }
    if from < to {
        assert(bare_address(raw).last() == raw[to - 1]);
    }
    assert(is_bare(raw, from, to, end));
}

/// A host starts at `at`: behind the scheme, which is `scheme` characters long, there are
/// only slashes before it.
pub open spec fn host_at(address: Seq<char>, scheme: int, at: int) -> bool {
    &&& scheme <= at < address.len()
    &&& forall|i: int| scheme <= i < at ==> #[trigger] address[i] == '/'
    &&& address[at] != '/' && address[at] != '?' && address[at] != '#'
}

/// The address goes on as a host from `at` up to `end`, and there the host is over.
pub open spec fn host_spans(address: Seq<char>, at: int, end: int) -> bool {
    &&& at < end <= address.len()
    &&& forall|i: int| at <= i < end ==> #[trigger] address[i] != '/' && address[i] != '?' && address[i]
        != '#'
    &&& end == address.len() || address[end] == '/' || address[end] == '?' || address[end] == '#'
}

/// Where the scheme of an address on the web is over.
pub open spec fn scheme_end(address: Seq<char>) -> int {
    if "https://"@.is_prefix_of(address) {
        8
    } else {
        7
    }
}

/// An address is accepted exactly if it is one of the web. The server is then the address
/// up to the end of its host, no less and no more, or all of an address that has no host.
/// One that is refused is told as it was given.
pub proof fn law_server_is_cut_behind_its_host(raw: Seq<char>, other: Seq<char>)
    ensures
        server_at(raw) is Ok <==> "http://"@.is_prefix_of(bare_address(raw))
            || "https://"@.is_prefix_of(bare_address(raw)),
        server_at(raw) matches Ok(server) ==> {
            let address = bare_address(raw);
            let scheme = scheme_end(address);
            &&& forall|at: int| #[trigger]
                host_at(address, scheme, at) ==> exists|end: int| #[trigger]
                    host_spans(address, at, end) && server == address.take(end)
            &&& (forall|at: int| !host_at(address, scheme, at)) ==> server == address
        },
        server_at(raw) is Err && server_at(other) is Err ==> told_alike(
            server_at(raw)->Err_0,
            seq![raw],
            server_at(other)->Err_0,
            seq![other],
        ),
{
    let address = bare_address(raw);
    reveal_strlit("https://");
    reveal_strlit("http://");
    if is_http(address) {
        let scheme = scheme_end(address);
        let start = host_start(address);
        assert(scheme == scheme_len(address));
        lemma_behind_slashes(address, scheme_len(address));
        assert forall|at: int| #[trigger] host_at(address, scheme, at) implies exists|
            end: int,
        | #[trigger]
            host_spans(address, at, end) && origin(address) == address.take(end) by {
            assert(at == start) by {
                if at < start {
                    assert(address[at] == '/');
                } else if start < at {
                    assert(address[start as int] == '/');
                }
            }
            lemma_up_to_host_end(address, start);
            let server = origin(address);
            let end = server.len() as int;
            assert(server =~= address.take(end));
            assert forall|i: int| at <= i < end implies #[trigger] address[i] != '/' && address[i]
                != '?' && address[i] != '#' by {
                assert(server[i] == address[i]);
                assert(!ends_host(up_to_host_end(address, start)[i]));
            }
            if end == start {
                assert(ends_host(address[start as int]));
            }
            assert(host_spans(address, at, end));
        }
        if has_host(address) {
            assert(host_at(address, scheme, start as int));
        }
    }
    let nothing = Seq::<char>::empty();
    let words = "Server must be an http(s) URL: "@;
    lemma_same_words(words, nothing, raw, other);
    assert(words + raw + nothing =~= words + raw);
    assert(words + other + nothing =~= words + other);
}

/// Each address is the server with one and the same path behind it, and where there is an
/// identifier it stands encoded in that path. The header that carries a token holds all of
/// it.
pub proof fn law_addresses_hold_server_and_identifier(
    server: Seq<char>,
    other: Seq<char>,
    id: Seq<char>,
    other_id: Seq<char>,
)
    ensures
        same_words(
            login_start_address(server),
            seq![server],
            login_start_address(other),
            seq![other],
        ),
        same_words(health_address(server), seq![server], health_address(other), seq![other]),
        same_words(
            submissions_address(server),
            seq![server],
            submissions_address(other),
            seq![other],
        ),
        same_words(
            login_poll_address(server, id),
            seq![server, url_encoded(id)],
            login_poll_address(other, other_id),
            seq![other, url_encoded(other_id)],
        ),
        same_words(
            submission_address(server, id),
            seq![server, url_encoded(id)],
            submission_address(other, other_id),
            seq![other, url_encoded(other_id)],
        ),
        same_words(
            log_address(server, id),
            seq![server, url_encoded(id)],
            log_address(other, other_id),
            seq![other, url_encoded(other_id)],
        ),
        same_words(bearer(id), seq![id], bearer(other_id), seq![other_id]),
{
    let no = Seq::<char>::empty();
    let (x, y) = (url_encoded(id), url_encoded(other_id));
    lemma_behind(server, other, "/api/cli-auth/start"@);
    lemma_behind(server, other, "/api/health"@);
    lemma_behind(server, other, "/api/submissions"@);
    lemma_between(server, other, "/api/cli-auth/poll?device_code="@, x, y, no);
    lemma_between(server, other, "/api/submissions/"@, x, y, no);
    lemma_between(server, other, "/api/submissions/"@, x, y, "/log"@);
    assert(login_poll_address(server, id) + no =~= login_poll_address(server, id));
    assert(login_poll_address(other, other_id) + no =~= login_poll_address(other, other_id));
    assert(submission_address(server, id) + no =~= submission_address(server, id));
    assert(submission_address(other, other_id) + no =~= submission_address(other, other_id));
    lemma_same_words("Bearer "@, no, id, other_id);
    assert("Bearer "@ + id + no =~= bearer(id));
    assert("Bearer "@ + other_id + no =~= bearer(other_id));
}

proof fn lemma_behind(a: Seq<char>, b: Seq<char>, path: Seq<char>)
    ensures
        same_words(a + path, seq![a], b + path, seq![b]),
{
    let no = Seq::<char>::empty();
    lemma_same_words(no, path, a, b);
    assert(no + a + path =~= a + path);
    assert(no + b + path =~= b + path);
}

proof fn lemma_between(
    a: Seq<char>,
    b: Seq<char>,
    path: Seq<char>,
    x: Seq<char>,
    y: Seq<char>,
    end: Seq<char>,
)
    ensures
        same_words(a + path + x + end, seq![a, x], b + path + y + end, seq![b, y]),
{
    let no = Seq::<char>::empty();
    lemma_same_words_two(no, path, end, (a, x), (b, y));
    assert(no + a + path + x + end =~= a + path + x + end);
    assert(no + b + path + y + end =~= b + path + y + end);
}

} // verus!
