//! MongoDB connection strings: building one from the configuration, hiding
//! its credentials for the logs, and finding its host part.
use vstd::prelude::*;
use crate::config::MongoConfig;
use crate::text::{
    append_all, chars_of, contains, contains_seq, decimal, find_from, find_seq, join_with,
    push_decimal, push_str, string_of,
};

verus! {

/// How `url_encode` writes one character: the characters that separate the
/// parts of a connection string are percent-encoded.
pub open spec fn encode_char(c: char) -> Seq<char> {
    if c == ':' {
        seq!['%', '3', 'A']
    } else if c == '/' {
        seq!['%', '2', 'F']
    } else if c == '@' {
        seq!['%', '4', '0']
    } else if c == '#' {
        seq!['%', '2', '3']
    } else if c == '?' {
        seq!['%', '3', 'F']
    } else if c == '&' {
        seq!['%', '2', '6']
    } else if c == '=' {
        seq!['%', '3', 'D']
    } else if c == ' ' {
        seq!['%', '2', '0']
    } else {
        seq![c]
    }
}

/// `s` with each character encoded by `encode_char`.
pub open spec fn url_encoded(s: Seq<char>) -> Seq<char>
    decreases s.len(),
{
    if s.len() == 0 {
        Seq::empty()
    } else {
        url_encoded(s.drop_last()) + encode_char(s.last())
    }
}

/// The characters that never occur in a percent-encoded credential.
pub open spec fn is_uri_separator(c: char) -> bool {
    c == ':' || c == '/' || c == '@' || c == '#' || c == '?' || c == '&' || c == '=' || c == ' '
}

/// Percent-encodes the characters of `s` that separate the parts of a
/// connection string (`: / @ # ? & =` and space).
pub fn url_encode(s: &str) -> (out: String)
    ensures
        out@ == url_encoded(s@),
        forall|i: int| 0 <= i < out@.len() ==> !is_uri_separator(#[trigger] out@[i]),
{
    let cs = chars_of(s);
    let mut out: Vec<char> = Vec::new();
    let mut i: usize = 0;
    while i < cs.len()
        invariant
            i <= cs@.len(),
            cs@ == s@,
            out@ == url_encoded(s@.take(i as int)),
            forall|k: int| 0 <= k < out@.len() ==> !is_uri_separator(#[trigger] out@[k]),
        decreases cs@.len() - i,
    {
        let c = cs[i];
        let ghost before = out@;
        if c == ':' {
            out.push('%');
            out.push('3');
            out.push('A');
        } else if c == '/' {
            out.push('%');
            out.push('2');
            out.push('F');
        } else if c == '@' {
            out.push('%');
            out.push('4');
            out.push('0');
        } else if c == '#' {
            out.push('%');
            out.push('2');
            out.push('3');
        } else if c == '?' {
            out.push('%');
            out.push('3');
            out.push('F');
        } else if c == '&' {
            out.push('%');
            out.push('2');
            out.push('6');
        } else if c == '=' {
            out.push('%');
            out.push('3');
            out.push('D');
        } else if c == ' ' {
            out.push('%');
            out.push('2');
            out.push('0');
        } else {
            out.push(c);
        }
        proof {
            assert(out@ =~= before + encode_char(c));
            assert(s@.take(i + 1).drop_last() =~= s@.take(i as int));
            assert(s@.take(i + 1).last() == c);
        }
        i = i + 1;
    }
    assert(s@.take(cs@.len() as int) =~= s@);
    string_of(out.as_slice())
}

/// A configured text that counts only when it is present and not empty.
pub open spec fn present(o: Option<String>) -> Option<Seq<char>> {
    match o {
        Some(s) => if s@.len() > 0 { Some(s@) } else { None },
        None => None,
    }
}

/// The `user:password@` part: both must be present and not empty.
pub open spec fn credentials_part(cfg: MongoConfig) -> Seq<char> {
    match (present(cfg.username), present(cfg.password)) {
        (Some(u), Some(p)) => url_encoded(u) + seq![':'] + url_encoded(p) + seq!['@'],
        _ => Seq::empty(),
    }
}

/// The views of a list of strings.
pub open spec fn string_seq(v: Seq<String>) -> Seq<Seq<char>> {
    v.map_values(|s: String| s@)
}

/// The hosts, joined by commas.
pub open spec fn hosts_part(cfg: MongoConfig) -> Seq<char> {
    match cfg.hosts {
        Some(hs) => join_with(string_seq(hs@), seq![',']),
        None => Seq::empty(),
    }
}

/// The `/database` part, when a database is named.
pub open spec fn database_part(cfg: MongoConfig) -> Seq<char> {
    if cfg.database@.len() > 0 {
        seq!['/'] + cfg.database@
    } else {
        Seq::empty()
    }
}

/// The query parameters that the configuration sets, in order.
pub open spec fn uri_params(cfg: MongoConfig) -> Seq<Seq<char>> {
    let p1: Seq<Seq<char>> = if cfg.ssl { seq!["ssl=true"@] } else { Seq::empty() };
    let p2 = match present(cfg.replica_set) {
        Some(r) => p1.push("replicaSet="@ + r),
        None => p1,
    };
    let p3 = if cfg.auth_source@.len() > 0 { p2.push("authSource="@ + cfg.auth_source@) } else { p2 };
    match present(cfg.app_name) {
        Some(a) => p3.push("appName="@ + a),
        None => p3,
    }
}

/// The `?a=b&c=d` part, when there are parameters.
pub open spec fn query_part(cfg: MongoConfig) -> Seq<char> {
    if uri_params(cfg).len() > 0 {
        seq!['?'] + join_with(uri_params(cfg), seq!['&'])
    } else {
        Seq::empty()
    }
}

/// The connection string before the timeouts are added.
pub open spec fn base_uri(cfg: MongoConfig) -> Seq<char> {
    cfg.protocol@ + "://"@ + credentials_part(cfg) + hosts_part(cfg) + database_part(cfg) + query_part(
        cfg,
    )
}

/// `s` with the parameter `name=value` added, unless `name` already occurs
/// in it; it goes after `&` when `s` already has a `?`, else after `?`.
pub open spec fn with_param(s: Seq<char>, name: Seq<char>, value: u64) -> Seq<char> {
    if contains(s, name) {
        s
    } else {
        s + (if contains(s, seq!['?']) { seq!['&'] } else { seq!['?'] }) + name + seq!['='] + decimal(
            value as nat,
        )
    }
}

/// The connection string that `build_uri` makes of `cfg`.
pub open spec fn built_uri(cfg: MongoConfig) -> Seq<char> {
    with_param(
        with_param(base_uri(cfg), "connectTimeoutMS"@, cfg.connect_timeout_ms),
        "serverSelectionTimeoutMS"@,
        cfg.server_selection_timeout_ms,
    )
}

/// Appends the texts joined by `sep`.
fn push_joined(out: &mut Vec<char>, parts: &Vec<String>, sep: char)
    ensures
        final(out)@ == old(out)@ + join_with(string_seq(parts@), seq![sep]),
{
    let ghost start = out@;
    let mut i: usize = 0;
    while i < parts.len()
        invariant
            i <= parts@.len(),
            out@ == start + join_with(string_seq(parts@.take(i as int)), seq![sep]),
        decreases parts@.len() - i,
    {
        if i > 0 {
            out.push(sep);
        }
        push_str(out, parts[i].as_str());
        proof {
            let a = string_seq(parts@.take(i + 1));
            assert(a.drop_last() =~= string_seq(parts@.take(i as int)));
            assert(a.last() == parts@[i as int]@);
            if i == 0 {
                assert(a.len() == 1);
            }
        }
        i = i + 1;
    }
    assert(parts@.take(parts@.len() as int) =~= parts@);
}

/// Appends `name=value` for the first timeout parameter missing from `out`.
fn push_param(out: &mut Vec<char>, name: &str, value: u64)
    ensures
        final(out)@ == with_param(old(out)@, name@, value),
{
    let n = chars_of(name);
    if contains_seq(out.as_slice(), n.as_slice()) {
        return;
    }
    let q = ['?'];
    let has_q = contains_seq(out.as_slice(), q.as_slice());
    proof {
        assert(q@ =~= seq!['?']);
    }
    let ghost before = out@;
    if has_q {
        out.push('&');
    } else {
        out.push('?');
    }
    append_all(out, n.as_slice());
    out.push('=');
    let ghost mid = out@;
    push_decimal(out, value);
    proof {
        let sep: Seq<char> = if contains(before, seq!['?']) { seq!['&'] } else { seq!['?'] };
        assert(mid =~= before + sep + name@ + seq!['=']);
    }
}

/// Appends the `user:password@` part of `cfg`.
fn push_credentials(out: &mut Vec<char>, cfg: &MongoConfig)
    ensures
        final(out)@ == old(out)@ + credentials_part(*cfg),
{
    match (&cfg.username, &cfg.password) {
        (Some(u), Some(p)) => {
            if !u.as_str().is_empty() && !p.as_str().is_empty() {
                let eu = url_encode(u.as_str());
                let ep = url_encode(p.as_str());
                push_str(out, eu.as_str());
                out.push(':');
                push_str(out, ep.as_str());
                out.push('@');
            }
        },
        _ => {},
    }
    assert(out@ =~= old(out)@ + credentials_part(*cfg));
}

/// `name` followed by `value`, as a new string.
fn concat(name: &str, value: &str) -> (s: String)
    ensures
        s@ == name@ + value@,
{
    let mut v: Vec<char> = Vec::new();
    push_str(&mut v, name);
    push_str(&mut v, value);
    string_of(v.as_slice())
}

/// The query parameters that `cfg` sets, in order.
fn collect_params(cfg: &MongoConfig) -> (params: Vec<String>)
    ensures
        string_seq(params@) == uri_params(*cfg),
{
    let mut params: Vec<String> = Vec::new();
    if cfg.ssl {
        params.push("ssl=true".to_owned());
    }
    match &cfg.replica_set {
        Some(r) => {
            if !r.as_str().is_empty() {
                params.push(concat("replicaSet=", r.as_str()));
            }
        },
        None => {},
    }
    if !cfg.auth_source.as_str().is_empty() {
        params.push(concat("authSource=", cfg.auth_source.as_str()));
    }
    match &cfg.app_name {
        Some(a) => {
            if !a.as_str().is_empty() {
                params.push(concat("appName=", a.as_str()));
            }
        },
        None => {},
    }
    assert(string_seq(params@) =~= uri_params(*cfg));
    params
}

/// The MongoDB connection string for `cfg`: protocol, percent-encoded
/// credentials when both are given, hosts, database and query parameters,
/// then the two timeouts unless the text already names them.
pub fn build_uri(cfg: &MongoConfig) -> (uri: String)
    ensures
        uri@ == built_uri(*cfg),
{
    let mut out: Vec<char> = Vec::new();
    push_str(&mut out, cfg.protocol.as_str());
    push_str(&mut out, "://");
    push_credentials(&mut out, cfg);
    let ghost after_creds = out@;
    match &cfg.hosts {
        Some(hosts) => {
            push_joined(&mut out, hosts, ',');
        },
        None => {},
    }
    assert(out@ =~= after_creds + hosts_part(*cfg));
    let ghost after_hosts = out@;
    if !cfg.database.as_str().is_empty() {
        out.push('/');
        push_str(&mut out, cfg.database.as_str());
    }
    assert(out@ =~= after_hosts + database_part(*cfg));
    let ghost after_db = out@;
    let params = collect_params(cfg);
    if params.len() > 0 {
        out.push('?');
        push_joined(&mut out, &params, '&');
    }
    assert(out@ =~= after_db + query_part(*cfg));
    assert(out@ =~= base_uri(*cfg));
    push_param(&mut out, "connectTimeoutMS", cfg.connect_timeout_ms);
    push_param(&mut out, "serverSelectionTimeoutMS", cfg.server_selection_timeout_ms);
    string_of(out.as_slice())
}

/// Where the part after `scheme://` starts: just after the first `://`,
/// or at 0 when there is none.
pub open spec fn scheme_end(uri: Seq<char>) -> int {
    match find_from(uri, "://"@, 0) {
        Some(i) => i + 3,
        None => 0,
    }
}

/// `uri` with everything between the scheme and the first `@` replaced by
/// `<credentials>`; unchanged when it has no `@`.
pub open spec fn redacted(uri: Seq<char>) -> Seq<char> {
    match find_from(uri, seq!['@'], 0) {
        Some(at) => uri.take(scheme_end(uri)) + "<credentials>@"@ + uri.skip(at + 1),
        None => uri,
    }
}

/// Hides the credentials of a connection string, for logging.
pub fn redact_credentials(uri: &str) -> (r: String)
    ensures
        r@ == redacted(uri@),
{
    let cs = chars_of(uri);
    let at_sign = ['@'];
    proof {
        assert(at_sign@ =~= seq!['@']);
    }
    match find_seq(cs.as_slice(), at_sign.as_slice()) {
        Some(at) => {
            proof {
                crate::text::lemma_find_from_found(uri@, seq!['@'], 0);
            }
            let sep = chars_of("://");
            let scheme_end: usize = match find_seq(cs.as_slice(), sep.as_slice()) {
                Some(i) => {
                    proof {
                        reveal_strlit("://");
                        crate::text::lemma_find_from_found(uri@, "://"@, 0);
                    }
                    i + 3
                },
                None => 0,
            };
            let mut out: Vec<char> = Vec::new();
            crate::text::append_range(&mut out, cs.as_slice(), 0, scheme_end);
            push_str(&mut out, "<credentials>@");
            crate::text::append_range(&mut out, cs.as_slice(), at + 1, cs.len());
            assert(out@ =~= redacted(uri@));
            string_of(out.as_slice())
        },
        None => uri.to_owned(),
    }
}

/// The connection string as it may be logged: its credentials redacted.
pub fn redacted_uri(uri: &str) -> (r: String)
    ensures
        r@ == redacted(uri@),
{
    redact_credentials(uri)
}

/// The first index at or after `k` that holds `/` or `?`, or the length.
pub open spec fn host_end(b: Seq<char>, k: int) -> int
    decreases b.len() - k,
{
    if 0 <= k < b.len() {
        if b[k] == '/' || b[k] == '?' {
            k
        } else {
            host_end(b, k + 1)
        }
    } else {
        b.len() as int
    }
}

/// The host list of a connection string: what follows the scheme and the
/// credentials, up to the first `/` or `?`.
pub open spec fn host_list(uri: Seq<char>) -> Seq<char> {
    let a = match find_from(uri, "://"@, 0) {
        Some(i) => uri.skip(i + 3),
        None => uri,
    };
    let b = match find_from(a, seq!['@'], 0) {
        Some(j) => a.skip(j + 1),
        None => a,
    };
    b.take(host_end(b, 0))
}

/// The hosts of a connection string, or `None` when that part is empty.
pub fn extract_hostport(uri: &str) -> (r: Option<String>)
    ensures
        match r {
            Some(h) => h@ == host_list(uri@) && h@.len() > 0,
            None => host_list(uri@).len() == 0,
        },
{
    let cs = chars_of(uri);
    let sep = chars_of("://");
    let a: Vec<char> = match find_seq(cs.as_slice(), sep.as_slice()) {
        Some(i) => {
            proof {
                reveal_strlit("://");
                crate::text::lemma_find_from_found(uri@, "://"@, 0);
            }
            crate::text::slice_chars(cs.as_slice(), i + 3, cs.len())
        },
        None => cs,
    };
    let at_sign = ['@'];
    proof {
        assert(at_sign@ =~= seq!['@']);
    }
    let b: Vec<char> = match find_seq(a.as_slice(), at_sign.as_slice()) {
        Some(j) => {
            proof {
                crate::text::lemma_find_from_found(a@, seq!['@'], 0);
            }
            crate::text::slice_chars(a.as_slice(), j + 1, a.len())
        },
        None => a,
    };
    let mut k: usize = 0;
    while k < b.len() && b[k] != '/' && b[k] != '?'
        invariant
            k <= b@.len(),
            host_end(b@, 0) == host_end(b@, k as int),
        decreases b@.len() - k,
    {
        k = k + 1;
    }
    if k == 0 {
        None
    } else {
        let h = crate::text::slice_chars(b.as_slice(), 0, k);
        Some(string_of(h.as_slice()))
    }
}

/// No character of a percent-encoded text separates connection-string
/// parts.
pub proof fn lemma_url_encoded_has_no_separator(s: Seq<char>)
    ensures
        forall|i: int| 0 <= i < url_encoded(s).len() ==> !is_uri_separator(#[trigger] url_encoded(s)[i]),
    decreases s.len(),
{
    if s.len() > 0 {
        lemma_url_encoded_has_no_separator(s.drop_last());
        let a = url_encoded(s.drop_last());
        let b = encode_char(s.last());
        assert forall|i: int| 0 <= i < url_encoded(s).len() implies !is_uri_separator(#[trigger] url_encoded(s)[i]) by {
            if i >= a.len() {
                assert(url_encoded(s)[i] == b[i - a.len()]);
            } else {
                assert(url_encoded(s)[i] == a[i]);
            }
        }
    }
}

/// Adding a parameter keeps what the text held in front.
proof fn lemma_with_param_extends(s: Seq<char>, name: Seq<char>, v: u64)
    ensures
        s.len() <= with_param(s, name, v).len(),
        with_param(s, name, v).take(s.len() as int) == s,
        contains(with_param(s, name, v), name),
        forall|other: Seq<char>| #[trigger] contains(s, other) ==> contains(with_param(s, name, v), other),
{
    let w = with_param(s, name, v);
    if !contains(s, name) {
        let sep: Seq<char> = if contains(s, seq!['?']) { seq!['&'] } else { seq!['?'] };
        let t = sep + name + seq!['='] + decimal(v as nat);
        assert(w =~= s + t);
        assert(w.take(s.len() as int) =~= s);
        let k = s.len() + 1int;
        assert(w.subrange(k, k + name.len()) =~= name);
        crate::text::lemma_find_from_finds(w, name, 0, k);
        assert forall|other: Seq<char>| #[trigger] contains(s, other) implies contains(w, other) by {
            crate::text::lemma_find_from_append(s, t, other, 0);
        }
    } else {
        assert(w.take(s.len() as int) =~= s);
    }
}

/// Law: every connection string that `build_uri` makes names both timeouts,
/// `connectTimeoutMS` and `serverSelectionTimeoutMS`.
pub proof fn lemma_built_uri_names_timeouts(cfg: MongoConfig)
    ensures
        contains(built_uri(cfg), "connectTimeoutMS"@),
        contains(built_uri(cfg), "serverSelectionTimeoutMS"@),
{
    let s1 = with_param(base_uri(cfg), "connectTimeoutMS"@, cfg.connect_timeout_ms);
    lemma_with_param_extends(base_uri(cfg), "connectTimeoutMS"@, cfg.connect_timeout_ms);
    lemma_with_param_extends(s1, "serverSelectionTimeoutMS"@, cfg.server_selection_timeout_ms);
}

/// The first occurrence of a one-character pattern is the first index that
/// holds it.
proof fn lemma_first_char(uri: Seq<char>, c: char, k: int)
    requires
        0 <= k < uri.len(),
        uri[k] == c,
        forall|i: int| 0 <= i < k ==> #[trigger] uri[i] != c,
    ensures
        find_from(uri, seq![c], 0) == Some(k),
{
    assert(uri.subrange(k, k + 1) =~= seq![c]);
    crate::text::lemma_find_from_finds(uri, seq![c], 0, k);
    crate::text::lemma_find_from_found(uri, seq![c], 0);
    let at = find_from(uri, seq![c], 0)->0;
    if at < k {
        assert(uri.subrange(at, at + 1)[0] == c);
    }
}

/// The first `://` of a text that starts with a protocol free of `:` is the
/// one right after it.
proof fn lemma_first_scheme_separator(uri: Seq<char>, pl: int)
    requires
        0 <= pl,
        pl + 3 <= uri.len(),
        uri.subrange(pl, pl + 3) == "://"@,
        forall|i: int| 0 <= i < pl ==> #[trigger] uri[i] != ':',
    ensures
        find_from(uri, "://"@, 0) == Some(pl),
{
    reveal_strlit("://");
    crate::text::lemma_find_from_finds(uri, "://"@, 0, pl);
    crate::text::lemma_find_from_found(uri, "://"@, 0);
    let j = find_from(uri, "://"@, 0)->0;
    if j < pl {
        assert(uri.subrange(j, j + 3)[0] == ':');
    }
}

/// `build_uri`'s result starts with the connection string before the
/// timeouts.
proof fn lemma_built_uri_starts_with_base(cfg: MongoConfig)
    ensures
        base_uri(cfg).len() <= built_uri(cfg).len(),
        forall|i: int| 0 <= i < base_uri(cfg).len() ==> #[trigger] built_uri(cfg)[i] == base_uri(cfg)[i],
{
    let base = base_uri(cfg);
    let s1 = with_param(base, "connectTimeoutMS"@, cfg.connect_timeout_ms);
    let uri = built_uri(cfg);
    lemma_with_param_extends(base, "connectTimeoutMS"@, cfg.connect_timeout_ms);
    lemma_with_param_extends(s1, "serverSelectionTimeoutMS"@, cfg.server_selection_timeout_ms);
    assert forall|i: int| 0 <= i < base.len() implies #[trigger] uri[i] == base[i] by {
        assert(uri.take(s1.len() as int)[i] == s1[i]);
        assert(s1.take(base.len() as int)[i] == base[i]);
    }
}

/// Redacting a text that starts with `protocol://user:password@`, where the
/// protocol holds neither `@` nor `:` and the encoded credentials no
/// separator, replaces that credentials part.
proof fn lemma_redacted_head(uri: Seq<char>, prot: Seq<char>, eu: Seq<char>, ep: Seq<char>)
    requires
        forall|i: int| 0 <= i < prot.len() ==> #[trigger] prot[i] != '@' && prot[i] != ':',
        forall|i: int| 0 <= i < eu.len() ==> !is_uri_separator(#[trigger] eu[i]),
        forall|i: int| 0 <= i < ep.len() ==> !is_uri_separator(#[trigger] ep[i]),
        ({
            let head = prot + "://"@ + (eu + seq![':'] + ep + seq!['@']);
            &&& head.len() <= uri.len()
            &&& forall|i: int| 0 <= i < head.len() ==> #[trigger] uri[i] == head[i]
        }),
    ensures
        redacted(uri) == prot + "://"@ + "<credentials>@"@ + uri.skip(
            prot.len() + 3 + (eu + seq![':'] + ep + seq!['@']).len() as int,
        ),
{
    reveal_strlit("://");
    let creds = eu + seq![':'] + ep + seq!['@'];
    let head = prot + "://"@ + creds;
    let pl = prot.len() as int;
    let k = pl + 3 + creds.len() - 1;
    assert(uri.subrange(pl, pl + 3) =~= "://"@) by {
        assert(uri[pl] == head[pl]);
        assert(uri[pl + 1] == head[pl + 1]);
        assert(uri[pl + 2] == head[pl + 2]);
    }
    assert forall|i: int| 0 <= i < pl implies #[trigger] uri[i] != ':' by {
        assert(uri[i] == head[i]);
    }
    lemma_first_scheme_separator(uri, pl);
    assert(uri[k] == '@') by {
        assert(uri[k] == head[k]);
    }
    assert forall|i: int| 0 <= i < k implies #[trigger] uri[i] != '@' by {
        assert(uri[i] == head[i]);
        let ul = eu.len() as int;
        if i < pl {
        } else if i < pl + 3 {
            assert(head[i] == "://"@[i - pl]);
        } else if i < pl + 3 + ul {
            assert(head[i] == eu[i - pl - 3]);
        } else if i == pl + 3 + ul {
        } else {
            assert(head[i] == ep[i - pl - 4 - ul]);
        }
    }
    lemma_first_char(uri, '@', k);
    assert(uri.take(pl + 3) =~= prot + "://"@) by {
        assert forall|i: int| 0 <= i < pl + 3 implies uri.take(pl + 3)[i] == (prot + "://"@)[i] by {
            assert(uri[i] == head[i]);
        }
    }
}

/// Law: when both credentials are given (and the protocol holds neither `@`
/// nor `:`), redacting the connection string that `build_uri` makes replaces
/// exactly its `user:password@` part by `<credentials>@`.
pub proof fn lemma_redacted_built_uri(cfg: MongoConfig)
    requires
        present(cfg.username) is Some,
        present(cfg.password) is Some,
        forall|i: int| 0 <= i < cfg.protocol@.len() ==> #[trigger] cfg.protocol@[i] != '@' && cfg.protocol@[i] != ':',
    ensures
        redacted(built_uri(cfg)) == cfg.protocol@ + "://"@ + "<credentials>@"@ + built_uri(cfg).skip(
            cfg.protocol@.len() + 3 + credentials_part(cfg).len() as int,
        ),
{
    let base = base_uri(cfg);
    let uri = built_uri(cfg);
    lemma_built_uri_starts_with_base(cfg);
    let prot = cfg.protocol@;
    let u = present(cfg.username)->0;
    let p = present(cfg.password)->0;
    let eu = url_encoded(u);
    let ep = url_encoded(p);
    let creds = credentials_part(cfg);
    assert(creds == eu + seq![':'] + ep + seq!['@']);
    lemma_url_encoded_has_no_separator(u);
    lemma_url_encoded_has_no_separator(p);
    let head = prot + "://"@ + creds;
    assert(base =~= head + (hosts_part(cfg) + database_part(cfg) + query_part(cfg)));
    assert forall|i: int| 0 <= i < head.len() implies #[trigger] uri[i] == head[i] by {
        assert(uri[i] == base[i]);
    }
    lemma_redacted_head(uri, prot, eu, ep);
}

/// Law: redacting a connection string whose scheme comes before its
/// credentials a second time changes nothing.
pub proof fn lemma_redaction_is_stable(uri: Seq<char>)
    requires
        find_from(uri, seq!['@'], 0) is Some,
        find_from(uri, "://"@, 0) matches Some(i) && i + 3 <= find_from(uri, seq!['@'], 0)->0,
    ensures
        redacted(redacted(uri)) == redacted(uri),
{
    reveal_strlit("://");
    reveal_strlit("<credentials>@");
    let at = find_from(uri, seq!['@'], 0)->0;
    let i = find_from(uri, "://"@, 0)->0;
    let c = "<credentials>@"@;
    crate::text::lemma_find_from_found(uri, seq!['@'], 0);
    crate::text::lemma_find_from_found(uri, "://"@, 0);
    let red = uri.take(i + 3) + c + uri.skip(at + 1);
    assert(redacted(uri) == red);
    // The scheme separator is where it was.
    assert(red.subrange(i, i + 3) =~= uri.subrange(i, i + 3));
    assert forall|k: int| 0 <= k < i implies !(#[trigger] red.subrange(k, k + 3) =~= "://"@) by {
        assert(red.subrange(k, k + 3) =~= uri.subrange(k, k + 3));
    }
    crate::text::lemma_find_from_finds(red, "://"@, 0, i);
    crate::text::lemma_find_from_found(red, "://"@, 0);
    assert(find_from(red, "://"@, 0) == Some(i));
    // The first `@` closes the placeholder.
    let k = i + 3 + 13;
    assert(red[k] == '@');
    assert forall|m: int| 0 <= m < k implies #[trigger] red[m] != '@' by {
        if m < i + 3 {
            assert(red[m] == uri[m]);
            assert(!(uri.subrange(m, m + 1) =~= seq!['@']));
            assert(uri.subrange(m, m + 1)[0] == uri[m]);
        } else {
            assert(red[m] == c[m - i - 3]);
        }
    }
    lemma_first_char(red, '@', k);
    assert(red.take(i + 3) =~= uri.take(i + 3));
    assert(red.skip(k + 1) =~= uri.skip(at + 1));
    assert(redacted(red) =~= red);
}

} // verus!
