//! The V4 signing scheme: a canonical request over method, path, query and
//! headers is hashed, the hash is signed, and the signature is placed in the
//! URL beside the query it covers.
use vstd::prelude::*;
use crate::text::{chars_of, string_of, upper_of, uppercase, lower_of, trim, lower_chars, trim_chars};
use vstd::utf8::encode_utf8;
use crate::headers::{split_header, first_colon, chars_eq, chars_lt, seq_lt, sanitize, sanitized_entries, entries_view, strings_view, rendered, names_of,
    render_entry};
use crate::encoding::{
    join_with, vecs_view, push_all, join_chars, replace_plus, replace_plus_chars, path_encoded,
    path_encode_v4, component_escape_of, component_escape_chars, decimal, decimal_chars, hex_of,
    hex_chars,
};
use crate::options::{
    SignedURLOptions, SignedURLError, OptionProblem, URLStyleKind,
    validate_options, options_problem,
};

verus! {

/// What `chrono`'s `to_rfc3339` gives for the UTC instant `secs` seconds
/// after the Unix epoch; `None` where `chrono` holds no such instant.
pub uninterp spec fn rfc3339_at(secs: int) -> Option<Seq<char>>;

/// The `YYYYMMDD` date of the UTC instant `secs` seconds after the Unix
/// epoch, as `chrono` formats it; `None` where `chrono` holds no such instant.
pub uninterp spec fn yyyymmdd_at(secs: int) -> Option<Seq<char>>;

/// What `sha2::Sha256::digest` returns for the UTF-8 bytes of `s`.
pub uninterp spec fn sha256_of(s: Seq<char>) -> Seq<u8>;

/// Relies on `chrono::DateTime::<Utc>::from_timestamp` and `to_rfc3339`:
/// the instant's RFC 3339 text, `None` out of `chrono`'s range.
#[verifier::external_body]
fn rfc3339_text(secs: i64) -> (r: Option<String>)
    ensures
        match rfc3339_at(secs as int) {
            Some(t) => r is Some && r->0@ == t,
            None => r is None,
        },
{
    match chrono::DateTime::<chrono::Utc>::from_timestamp(secs, 0) {
        Some(d) => Some(d.to_rfc3339()),
        None => None,
    }
}

/// Relies on `chrono::DateTime::<Utc>::from_timestamp` and `format`: the
/// instant's date as `%Y%m%d`, `None` out of `chrono`'s range.
#[verifier::external_body]
fn yyyymmdd_text(secs: i64) -> (r: Option<String>)
    ensures
        match yyyymmdd_at(secs as int) {
            Some(t) => r is Some && r->0@ == t,
            None => r is None,
        },
{
    match chrono::DateTime::<chrono::Utc>::from_timestamp(secs, 0) {
        Some(d) => Some(d.format("%Y%m%d").to_string()),
        None => None,
    }
}

/// Relies on `sha2::Sha256::digest`: the SHA-256 digest of the UTF-8 bytes
/// of `s`, 32 bytes.
#[verifier::external_body]
fn sha256(s: &str) -> (r: Vec<u8>)
    ensures
        r@ == sha256_of(s@),
        r@.len() == 32,
{
    <sha2::Sha256 as sha2::Digest>::digest(s.as_bytes()).to_vec()
}

pub open spec fn params_view(v: Seq<(String, Vec<String>)>) -> Seq<(Seq<char>, Seq<Seq<char>>)> {
    v.map_values(|p: (String, Vec<String>)| (p.0@, strings_view(p.1@)))
}

/// `key=value`, both percent-encoded.
pub open spec fn pair_text(k: Seq<char>, v: Seq<char>) -> Seq<char> {
    component_escape_of(k) + seq!['='] + component_escape_of(v)
}

/// One `key=value` text for each of the values.
pub open spec fn pair_texts(k: Seq<char>, vs: Seq<Seq<char>>) -> Seq<Seq<char>> {
    vs.map_values(|v: Seq<char>| pair_text(k, v))
}

/// One `key=value` text for each value of each parameter, in order.
pub open spec fn param_texts(ps: Seq<(Seq<char>, Seq<Seq<char>>)>) -> Seq<Seq<char>>
    decreases ps.len(),
{
    if ps.len() == 0 {
        seq![]
    } else {
        param_texts(ps.drop_last()) + pair_texts(ps.last().0, ps.last().1)
    }
}

/// The query string of a parameter list: its pairs joined with `&`, every
/// `+` written as `%20`.
pub open spec fn encode_params(ps: Seq<(Seq<char>, Seq<Seq<char>>)>) -> Seq<char> {
    replace_plus(join_with(param_texts(ps), '&'))
}

/// The parameter names that signing itself sets.
pub open spec fn reserved_name(k: Seq<char>) -> bool {
    k == "X-Goog-Algorithm"@ || k == "X-Goog-Credential"@ || k == "X-Goog-Date"@ || k
        == "X-Goog-Expires"@ || k == "X-Goog-SignedHeaders"@ || k == "X-Goog-Signature"@
}

pub open spec fn has_reserved(ps: Seq<(Seq<char>, Seq<Seq<char>>)>) -> bool {
    exists|i: int| 0 <= i < ps.len() && reserved_name(#[trigger] ps[i].0)
}

/// The credential scope of a date.
pub open spec fn scope_of(ymd: Seq<char>) -> Seq<char> {
    ymd + "/auto/storage/goog4_request"@
}

/// The parameters that signing sets, followed by the caller's.
pub open spec fn query_params(
    access_id: Seq<char>,
    ymd: Seq<char>,
    ts: Seq<char>,
    lifetime: nat,
    signed: Seq<char>,
    extra: Seq<(Seq<char>, Seq<Seq<char>>)>,
) -> Seq<(Seq<char>, Seq<Seq<char>>)> {
    seq![
        ("X-Goog-Algorithm"@, seq!["GOOG4-RSA-SHA256"@]),
        ("X-Goog-Credential"@, seq![access_id + seq!['/'] + scope_of(ymd)]),
        ("X-Goog-Date"@, seq![ts]),
        ("X-Goog-Expires"@, seq![decimal(lifetime)]),
        ("X-Goog-SignedHeaders"@, seq![signed]),
    ] + extra
}

/// Places an entry into a name-sorted list as it is: before the first
/// entry whose name is greater, after any of the same name.
pub open spec fn place_header(
    list: Seq<(Seq<char>, Seq<char>)>,
    name: Seq<char>,
    value: Seq<char>,
) -> Seq<(Seq<char>, Seq<char>)>
    decreases list.len(),
{
    if list.len() == 0 {
        seq![(name, value)]
    } else if seq_lt(name, list[0].0) {
        seq![(name, value)] + list
    } else {
        seq![list[0]] + place_header(list.drop_first(), name, value)
    }
}

/// `place_header` where the value is not empty.
pub open spec fn place_if_set(
    list: Seq<(Seq<char>, Seq<char>)>,
    name: Seq<char>,
    value: Seq<char>,
) -> Seq<(Seq<char>, Seq<char>)> {
    if value.len() > 0 {
        place_header(list, name, value)
    } else {
        list
    }
}

/// The headers of a signed request: the caller's, sanitized, with `host`,
/// and `content-type` and `content-md5` where set, placed as given.
pub open spec fn canonical_entries(
    host: Seq<char>,
    content_type: Seq<char>,
    md5: Seq<char>,
    hs: Seq<Seq<char>>,
) -> Seq<(Seq<char>, Seq<char>)> {
    place_if_set(
        place_if_set(place_header(sanitize(hs), "host"@, host), "content-type"@, content_type),
        "content-md5"@,
        md5,
    )
}

/// Whether a header entry is named `x-goog-content-sha256`, read as
/// sanitizing reads names.
pub open spec fn is_payload_header(h: Seq<char>) -> bool {
    first_colon(h) < h.len() && lower_of(trim(h.subrange(0, first_colon(h))))
        == "x-goog-content-sha256"@
}

/// The value, as given, of the first caller header named
/// `x-goog-content-sha256`, else `UNSIGNED-PAYLOAD`.
pub open spec fn payload_token(hs: Seq<Seq<char>>) -> Seq<char>
    decreases hs.len(),
{
    if hs.len() == 0 {
        "UNSIGNED-PAYLOAD"@
    } else if is_payload_header(hs[0]) {
        hs[0].subrange(first_colon(hs[0]) + 1, hs[0].len() as int)
    } else {
        payload_token(hs.drop_first())
    }
}

/// The canonical request: method, path, query, header block, signed header
/// names and payload token, one per line.
pub open spec fn canonical_request(
    method: Seq<char>,
    path: Seq<char>,
    query: Seq<char>,
    es: Seq<(Seq<char>, Seq<char>)>,
    payload: Seq<char>,
) -> Seq<char> {
    upper_of(method) + seq!['\n', '/'] + path + seq!['\n'] + query + seq!['\n'] + join_with(
        rendered(es),
        '\n',
    ) + seq!['\n', '\n'] + join_with(names_of(es), ';') + seq!['\n'] + payload
}

/// The host of a style for a bucket.
pub open spec fn style_host(style: URLStyleKind, bucket: Seq<char>) -> Seq<char> {
    match style {
        URLStyleKind::PathStyle => "storage.googleapis.com"@,
        URLStyleKind::VirtualHostedStyle => bucket + ".storage.googleapis.com"@,
        URLStyleKind::BucketBoundHostname(h) => h@,
    }
}

/// The unescaped path of an object, without its leading `/`.
pub open spec fn style_path(style: URLStyleKind, bucket: Seq<char>, object: Seq<char>) -> Seq<
    char,
> {
    match style {
        URLStyleKind::PathStyle => bucket + seq!['/'] + object,
        _ => object,
    }
}

/// The text that is signed.
pub open spec fn string_to_sign(ts: Seq<char>, scope: Seq<char>, digest: Seq<u8>) -> Seq<char> {
    "GOOG4-RSA-SHA256"@ + seq!['\n'] + ts + seq!['\n'] + scope + seq!['\n'] + hex_of(digest)
}

/// The signed URL.
pub open spec fn url_text(
    insecure: bool,
    host: Seq<char>,
    path: Seq<char>,
    query: Seq<char>,
    signature: Seq<u8>,
) -> Seq<char> {
    (if insecure {
        "http"@
    } else {
        "https"@
    }) + "://"@ + host + seq!['/'] + path + seq!['?'] + query + "&X-Goog-Signature="@ + hex_of(
        signature,
    )
}

/// Everything of a V4 signature but the signing: the parts are fixed by
/// bucket, object, options and the signing instant.
pub struct CanonicalParts {
    pub host: String,
    pub path: String,
    pub query: String,
    pub request: String,
    pub timestamp: String,
    pub scope: String,
}

/// The canonical parts that `canonical_parts` owes for these inputs, or the
/// error it owes.
pub open spec fn canonical_spec<F>(
    bucket: Seq<char>,
    object: Seq<char>,
    opts: &SignedURLOptions<F>,
    now: int,
) -> Result<(Seq<char>, Seq<char>, Seq<char>, Seq<char>, Seq<char>, Seq<char>), SignedURLError> {
    let extra = params_view(opts.query_parameters@);
    if has_reserved(extra) {
        Err(SignedURLError::InvalidOption(OptionProblem::QueryCollision))
    } else if rfc3339_at(now) is None || yyyymmdd_at(now) is None {
        Err(SignedURLError::InvalidTime)
    } else {
        let ts = rfc3339_at(now)->0;
        let ymd = yyyymmdd_at(now)->0;
        let host = style_host(opts.style, bucket);
        let path = path_encoded(style_path(opts.style, bucket, object));
        let es = canonical_entries(host, opts.content_type@, opts.md5@, strings_view(opts.headers@));
        let signed = join_with(names_of(es), ';');
        let query = encode_params(
            query_params(
                opts.google_access_id@,
                ymd,
                ts,
                (opts.expires - now) as nat,
                signed,
                extra,
            ),
        );
        Ok((host, path, query, canonical_request(opts.method@, path, query, es, payload_token(strings_view(opts.headers@))), ts, scope_of(ymd)))
    }
}

pub open spec fn cparams_view(v: Seq<(Vec<char>, Vec<Vec<char>>)>) -> Seq<
    (Seq<char>, Seq<Seq<char>>),
> {
    v.map_values(|p: (Vec<char>, Vec<Vec<char>>)| (p.0@, vecs_view(p.1@)))
}

fn clone_vecs(v: &Vec<Vec<char>>) -> (r: Vec<Vec<char>>)
    ensures
        vecs_view(r@) == vecs_view(v@),
{
    let mut r: Vec<Vec<char>> = Vec::new();
    let mut i: usize = 0;
    while i < v.len()
        invariant
            i <= v.len(),
            vecs_view(r@) == vecs_view(v@).subrange(0, i as int),
        decreases v.len() - i,
    {
        let c = v[i].clone();
        let ghost old_r = vecs_view(r@);
        r.push(c);
        assert(vecs_view(r@) =~= old_r.push(c@));
        i += 1;
        assert(vecs_view(r@) =~= vecs_view(v@).subrange(0, i as int));
    }
    assert(vecs_view(v@).subrange(0, i as int) =~= vecs_view(v@));
    r
}

fn one_value(v: Vec<char>) -> (r: Vec<Vec<char>>)
    ensures
        vecs_view(r@) == seq![v@],
{
    let mut r: Vec<Vec<char>> = Vec::new();
    r.push(v);
    assert(vecs_view(r@) =~= seq![v@]);
    r
}

/// The query string of a parameter list.
fn encode_params_chars(ps: &Vec<(Vec<char>, Vec<Vec<char>>)>) -> (r: Vec<char>)
    ensures
        r@ == encode_params(cparams_view(ps@)),
{
    let ghost pv = cparams_view(ps@);
    let mut texts: Vec<Vec<char>> = Vec::new();
    let mut i: usize = 0;
    while i < ps.len()
        invariant
            i <= ps.len(),
            pv == cparams_view(ps@),
            vecs_view(texts@) == param_texts(pv.subrange(0, i as int)),
        decreases ps.len() - i,
    {
        let ghost pre = pv.subrange(0, i + 1);
        assert(pre.drop_last() =~= pv.subrange(0, i as int));
        let ghost base = vecs_view(texts@);
        let key = &ps[i].0;
        let vals = &ps[i].1;
        let ghost p = pv[i as int];
        assert(p == (key@, vecs_view(vals@)));
        let ek = component_escape_chars(key);
        let mut j: usize = 0;
        while j < vals.len()
            invariant
                j <= vals.len(),
                ek@ == component_escape_of(key@),
                vecs_view(texts@) == base + pair_texts(key@, vecs_view(vals@).subrange(0, j as int)),
            decreases vals.len() - j,
        {
            let mut t = ek.clone();
            assert(t@ == ek@);
            let ghost old_pairs = pair_texts(key@, vecs_view(vals@).subrange(0, j as int));
            assert(pair_texts(key@, vecs_view(vals@).subrange(0, j + 1)) =~= old_pairs.push(
                pair_text(key@, vals@[j as int]@),
            ));
            t.push('=');
            let ev = component_escape_chars(&vals[j]);
            push_all(&mut t, &ev);
            assert(t@ =~= pair_text(key@, vals@[j as int]@));
            assert(vecs_view(vals@).subrange(0, j + 1) =~= vecs_view(vals@).subrange(0, j as int).push(vals@[j as int]@));
            let ghost old_t = vecs_view(texts@);
            texts.push(t);
            assert(vecs_view(texts@) =~= old_t.push(t@));
            j += 1;
            assert(vecs_view(texts@) =~= base + pair_texts(key@, vecs_view(vals@).subrange(0, j as int)));
        }
        assert(vecs_view(vals@).subrange(0, j as int) =~= vecs_view(vals@));
        i += 1;
        assert(vecs_view(texts@) =~= param_texts(pv.subrange(0, i as int)));
    }
    assert(pv.subrange(0, i as int) =~= pv);
    let joined = join_chars(&texts, '&');
    replace_plus_chars(&joined)
}

fn is_reserved(k: &Vec<char>) -> (r: bool)
    ensures
        r == reserved_name(k@),
{
    chars_eq(k, &chars_of("X-Goog-Algorithm")) || chars_eq(k, &chars_of("X-Goog-Credential"))
        || chars_eq(k, &chars_of("X-Goog-Date")) || chars_eq(k, &chars_of("X-Goog-Expires"))
        || chars_eq(k, &chars_of("X-Goog-SignedHeaders")) || chars_eq(
        k,
        &chars_of("X-Goog-Signature"),
    )
}

/// The caller's parameters as characters, or `None` where a name is one
/// that signing sets.
fn caller_params(ps: &Vec<(String, Vec<String>)>) -> (r: Option<Vec<(Vec<char>, Vec<Vec<char>>)>>)
    ensures
        has_reserved(params_view(ps@)) <==> r is None,
        r is Some ==> cparams_view(r->0@) == params_view(ps@),
{
    let ghost pv = params_view(ps@);
    let mut out: Vec<(Vec<char>, Vec<Vec<char>>)> = Vec::new();
    let mut i: usize = 0;
    while i < ps.len()
        invariant
            i <= ps.len(),
            pv == params_view(ps@),
            cparams_view(out@) == pv.subrange(0, i as int),
            forall|j: int| 0 <= j < i ==> !reserved_name(#[trigger] pv[j].0),
        decreases ps.len() - i,
    {
        assert(pv[i as int] == (ps@[i as int].0@, strings_view(ps@[i as int].1@)));
        let k = chars_of(ps[i].0.as_str());
        if is_reserved(&k) {
            assert(reserved_name(pv[i as int].0));
            return None;
        }
        let mut vs: Vec<Vec<char>> = Vec::new();
        let mut j: usize = 0;
        while j < ps[i].1.len()
            invariant
                i < ps.len(),
                j <= ps@[i as int].1.len(),
                vecs_view(vs@) == strings_view(ps@[i as int].1@).subrange(0, j as int),
            decreases ps@[i as int].1.len() - j,
        {
            let v = chars_of(ps[i].1[j].as_str());
            let ghost old_vs = vecs_view(vs@);
            vs.push(v);
            assert(vecs_view(vs@) =~= old_vs.push(v@));
            j += 1;
            assert(vecs_view(vs@) =~= strings_view(ps@[i as int].1@).subrange(0, j as int));
        }
        assert(strings_view(ps@[i as int].1@).subrange(0, j as int) =~= strings_view(
            ps@[i as int].1@,
        ));
        let ghost old_out = cparams_view(out@);
        out.push((k, vs));
        assert(cparams_view(out@) =~= old_out.push(pv[i as int]));
        i += 1;
        assert(cparams_view(out@) =~= pv.subrange(0, i as int));
    }
    assert(pv.subrange(0, i as int) =~= pv);
    Some(out)
}

fn style_host_chars(style: &URLStyleKind, bucket: &str) -> (r: Vec<char>)
    ensures
        r@ == style_host(*style, bucket@),
{
    match style {
        URLStyleKind::PathStyle => chars_of("storage.googleapis.com"),
        URLStyleKind::VirtualHostedStyle => {
            let mut r = chars_of(bucket);
            push_all(&mut r, &chars_of(".storage.googleapis.com"));
            r
        },
        URLStyleKind::BucketBoundHostname(h) => chars_of(h.as_str()),
    }
}

fn style_path_chars(style: &URLStyleKind, bucket: &str, object: &str) -> (r: Vec<char>)
    ensures
        r@ == style_path(*style, bucket@, object@),
{
    match style {
        URLStyleKind::PathStyle => {
            let mut r = chars_of(bucket);
            r.push('/');
            push_all(&mut r, &chars_of(object));
            r
        },
        _ => chars_of(object),
    }
}

fn payload_token_chars(hs: &Vec<String>) -> (r: Vec<char>)
    ensures
        r@ == payload_token(strings_view(hs@)),
{
    let ghost hv = strings_view(hs@);
    let target = chars_of("x-goog-content-sha256");
    let mut i: usize = 0;
    assert(hv.subrange(0, hv.len() as int) =~= hv);
    while i < hs.len()
        invariant
            i <= hs.len(),
            hv == strings_view(hs@),
            target@ == "x-goog-content-sha256"@,
            payload_token(hv) == payload_token(hv.subrange(i as int, hv.len() as int)),
        decreases hs.len() - i,
    {
        let ghost rest = hv.subrange(i as int, hv.len() as int);
        assert(rest[0] == hs@[i as int]@);
        assert(rest.drop_first() =~= hv.subrange(i + 1, hv.len() as int));
        match split_header(hs[i].as_str()) {
            Some(p) => {
                let name = lower_chars(&trim_chars(&p.0));
                if chars_eq(&name, &target) {
                    return p.1;
                }
            },
            None => {},
        }
        i += 1;
    }
    chars_of("UNSIGNED-PAYLOAD")
}

proof fn lemma_place_skip(
    list: Seq<(Seq<char>, Seq<char>)>,
    name: Seq<char>,
    value: Seq<char>,
    i: int,
)
    requires
        0 <= i <= list.len(),
        forall|j: int| 0 <= j < i ==> !seq_lt(name, #[trigger] list[j].0),
    ensures
        place_header(list, name, value) == list.subrange(0, i) + place_header(
            list.subrange(i, list.len() as int),
            name,
            value,
        ),
    decreases i,
{
    if i == 0 {
        assert(list.subrange(0, list.len() as int) =~= list);
        assert(list.subrange(0, 0) + place_header(list, name, value) =~= place_header(
            list,
            name,
            value,
        ));
    } else {
        let rest = list.drop_first();
        assert forall|j: int| 0 <= j < i - 1 implies !seq_lt(name, #[trigger] rest[j].0) by {
            assert(rest[j] == list[j + 1]);
        }
        lemma_place_skip(rest, name, value, i - 1);
        assert(rest.subrange(i - 1, rest.len() as int) =~= list.subrange(i, list.len() as int));
        assert(seq![list[0]] + (rest.subrange(0, i - 1) + place_header(
            list.subrange(i, list.len() as int),
            name,
            value,
        )) =~= list.subrange(0, i) + place_header(
            list.subrange(i, list.len() as int),
            name,
            value,
        ));
    }
}

/// Places one entry, as it is, into the name-sorted list `list`.
fn place_entry(list: &mut Vec<(Vec<char>, Vec<char>)>, name: Vec<char>, value: Vec<char>)
    ensures
        entries_view(final(list)@) == place_header(entries_view(old(list)@), name@, value@),
{
    let ghost l0 = entries_view(list@);
    let mut i: usize = 0;
    while i < list.len() && !chars_lt(&name, &list[i].0)
        invariant
            i <= list.len(),
            list@ == old(list)@,
            l0 == entries_view(list@),
            forall|j: int| 0 <= j < i ==> !seq_lt(name@, #[trigger] l0[j].0),
        decreases list.len() - i,
    {
        assert(l0[i as int] == (list@[i as int].0@, list@[i as int].1@));
        i += 1;
    }
    proof {
        lemma_place_skip(l0, name@, value@, i as int);
        if i < l0.len() {
            assert(l0[i as int] == (list@[i as int].0@, list@[i as int].1@));
            assert(l0.subrange(i as int, l0.len() as int)[0] == l0[i as int]);
        }
    }
    list.insert(i, (name, value));
    assert(entries_view(list@) =~= l0.subrange(0, i as int) + place_header(
        l0.subrange(i as int, l0.len() as int),
        name@,
        value@,
    ));
}

fn canonical_entry_list(host: &Vec<char>, content_type: &str, md5: &str, hs: &Vec<String>) -> (r: Vec<
    (Vec<char>, Vec<char>),
>)
    ensures
        entries_view(r@) == canonical_entries(host@, content_type@, md5@, strings_view(hs@)),
{
    let mut es = sanitized_entries(hs.as_slice());
    place_entry(&mut es, chars_of("host"), host.clone());
    if !content_type.is_empty() {
        place_entry(&mut es, chars_of("content-type"), chars_of(content_type));
    }
    if !md5.is_empty() {
        place_entry(&mut es, chars_of("content-md5"), chars_of(md5));
    }
    es
}

fn entry_names(es: &Vec<(Vec<char>, Vec<char>)>) -> (r: Vec<Vec<char>>)
    ensures
        vecs_view(r@) == names_of(entries_view(es@)),
{
    let ghost ev = entries_view(es@);
    let mut r: Vec<Vec<char>> = Vec::new();
    let mut i: usize = 0;
    while i < es.len()
        invariant
            i <= es.len(),
            ev == entries_view(es@),
            vecs_view(r@) == names_of(ev.subrange(0, i as int)),
        decreases es.len() - i,
    {
        assert(ev[i as int] == (es@[i as int].0@, es@[i as int].1@));
        let n = es[i].0.clone();
        let ghost old_r = vecs_view(r@);
        r.push(n);
        assert(vecs_view(r@) =~= old_r.push(n@));
        i += 1;
        assert(vecs_view(r@) =~= names_of(ev.subrange(0, i as int)));
    }
    assert(ev.subrange(0, i as int) =~= ev);
    r
}

fn entry_lines(es: &Vec<(Vec<char>, Vec<char>)>) -> (r: Vec<Vec<char>>)
    ensures
        vecs_view(r@) == rendered(entries_view(es@)),
{
    let ghost ev = entries_view(es@);
    let mut r: Vec<Vec<char>> = Vec::new();
    let mut i: usize = 0;
    while i < es.len()
        invariant
            i <= es.len(),
            ev == entries_view(es@),
            vecs_view(r@) == rendered(ev.subrange(0, i as int)),
        decreases es.len() - i,
    {
        assert(ev[i as int] == (es@[i as int].0@, es@[i as int].1@));
        let n = render_entry(&es[i]);
        let ghost old_r = vecs_view(r@);
        r.push(n);
        assert(vecs_view(r@) =~= old_r.push(n@));
        i += 1;
        assert(vecs_view(r@) =~= rendered(ev.subrange(0, i as int)));
    }
    assert(ev.subrange(0, i as int) =~= ev);
    r
}

/// Builds the host, encoded path, query string and canonical request of a
/// V4 signature at instant `now` (Unix seconds), with the timestamp and
/// credential scope that the string to sign needs. Fails where a caller
/// query parameter takes a name that signing sets, or where `now` lies
/// outside the calendar's range.
pub fn canonical_parts<F>(bucket: &str, object: &str, opts: &SignedURLOptions<F>, now: i64) -> (r:
    Result<CanonicalParts, SignedURLError>)
    requires
        now < opts.expires,
    ensures
        match canonical_spec(bucket@, object@, opts, now as int) {
            Ok(t) => r is Ok && r->Ok_0.host@ == t.0 && r->Ok_0.path@ == t.1 && r->Ok_0.query@
                == t.2 && r->Ok_0.request@ == t.3 && r->Ok_0.timestamp@ == t.4
                && r->Ok_0.scope@ == t.5,
            Err(e) => r == Err::<CanonicalParts, SignedURLError>(e),
        },
{
    let extra = match caller_params(&opts.query_parameters) {
        Some(p) => p,
        None => {
            return Err(SignedURLError::InvalidOption(OptionProblem::QueryCollision));
        },
    };
    let ts = rfc3339_text(now);
    let ymd = yyyymmdd_text(now);
    if ts.is_none() || ymd.is_none() {
        return Err(SignedURLError::InvalidTime);
    }
    let ts = chars_of(ts.unwrap().as_str());
    let ymd = chars_of(ymd.unwrap().as_str());
    let host = style_host_chars(&opts.style, bucket);
    let raw_path = string_of(&style_path_chars(&opts.style, bucket, object));
    let path = chars_of(path_encode_v4(raw_path.as_str()).as_str());
    let es = canonical_entry_list(&host, opts.content_type.as_str(), opts.md5.as_str(), &opts.headers);
    let ghost ev = entries_view(es@);
    let signed = join_chars(&entry_names(&es), ';');

    let mut scope = ymd.clone();
    push_all(&mut scope, &chars_of("/auto/storage/goog4_request"));
    let mut credential = chars_of(opts.google_access_id.as_str());
    credential.push('/');
    push_all(&mut credential, &scope);
    let lifetime = ((opts.expires as i128) - (now as i128)) as u64;

    let mut params: Vec<(Vec<char>, Vec<Vec<char>>)> = Vec::new();
    params.push((chars_of("X-Goog-Algorithm"), one_value(chars_of("GOOG4-RSA-SHA256"))));
    params.push((chars_of("X-Goog-Credential"), one_value(credential)));
    params.push((chars_of("X-Goog-Date"), one_value(ts.clone())));
    params.push((chars_of("X-Goog-Expires"), one_value(decimal_chars(lifetime))));
    params.push((chars_of("X-Goog-SignedHeaders"), one_value(signed.clone())));
    let ghost gen = cparams_view(params@);
    assert(credential@ =~= opts.google_access_id@ + seq!['/'] + scope_of(ymd@));
    assert(gen =~= query_params(opts.google_access_id@, ymd@, ts@, lifetime as nat, signed@, seq![]));
    let mut k: usize = 0;
    while k < extra.len()
        invariant
            k <= extra.len(),
            cparams_view(params@) == gen + cparams_view(extra@).subrange(0, k as int),
        decreases extra.len() - k,
    {
        let p = (extra[k].0.clone(), clone_vecs(&extra[k].1));
        let ghost old_p = cparams_view(params@);
        params.push(p);
        assert(cparams_view(params@) =~= old_p.push(cparams_view(extra@)[k as int]));
        k += 1;
        assert(cparams_view(params@) =~= gen + cparams_view(extra@).subrange(0, k as int));
    }
    assert(cparams_view(extra@).subrange(0, k as int) =~= cparams_view(extra@));
    let query = encode_params_chars(&params);
    assert(cparams_view(params@) =~= query_params(
        opts.google_access_id@,
        ymd@,
        ts@,
        lifetime as nat,
        signed@,
        params_view(opts.query_parameters@),
    ));

    let mut req = chars_of(uppercase(opts.method.as_str()).as_str());
    req.push('\n');
    req.push('/');
    push_all(&mut req, &path);
    req.push('\n');
    push_all(&mut req, &query);
    req.push('\n');
    push_all(&mut req, &join_chars(&entry_lines(&es), '\n'));
    req.push('\n');
    req.push('\n');
    push_all(&mut req, &signed);
    req.push('\n');
    push_all(&mut req, &payload_token_chars(&opts.headers));
    assert(ev == canonical_entries(host@, opts.content_type@, opts.md5@, strings_view(opts.headers@)));
    assert(req@ =~= canonical_request(opts.method@, path@, query@, ev, payload_token(strings_view(opts.headers@))));
    assert(scope@ =~= scope_of(ymd@));
    Ok(
        CanonicalParts {
            host: string_of(&host),
            path: string_of(&path),
            query: string_of(&query),
            request: string_of(&req),
            timestamp: string_of(&ts),
            scope: string_of(&scope),
        },
    )
}

/// The RSA-SHA256 (PKCS #1 v1.5) signature of `msg` under the RSA private
/// key in PEM form `pem`, as `jsonwebtoken` computes it; `None` where the key
/// cannot be read or signing fails.
pub uninterp spec fn rs256_signature_of(pem: Seq<u8>, msg: Seq<u8>) -> Option<Seq<u8>>;

/// Relies on `jsonwebtoken::EncodingKey::from_rsa_pem` and
/// `jsonwebtoken::crypto::sign` with RS256, whose unpadded URL-safe base64
/// text `base64::decode_config` turns back into the signature bytes.
#[verifier::external_body]
fn rs256_signature(pem: &[u8], msg: &[u8]) -> (r: Option<Vec<u8>>)
    ensures
        match rs256_signature_of(pem@, msg@) {
            Some(sig) => r is Some && r->0@ == sig,
            None => r is None,
        },
{
    let key = jsonwebtoken::EncodingKey::from_rsa_pem(pem).ok()?;
    let text = jsonwebtoken::crypto::sign(msg, &key, jsonwebtoken::Algorithm::RS256).ok()?;
    base64::decode_config(text, base64::URL_SAFE_NO_PAD).ok()
}

/// The text to sign for the canonical parts `p`: algorithm, timestamp,
/// credential scope and the hex SHA-256 digest of the canonical request.
pub fn string_to_sign_text(p: &CanonicalParts) -> (r: String)
    ensures
        r@ == string_to_sign(p.timestamp@, p.scope@, sha256_of(p.request@)),
{
    let digest = sha256(p.request.as_str());
    let mut out = chars_of("GOOG4-RSA-SHA256");
    out.push('\n');
    push_all(&mut out, &chars_of(p.timestamp.as_str()));
    out.push('\n');
    push_all(&mut out, &chars_of(p.scope.as_str()));
    out.push('\n');
    push_all(&mut out, &hex_chars(digest.as_slice()));
    assert(out@ =~= string_to_sign(
        p.timestamp@,
        p.scope@,
        sha256_of(p.request@),
    ));
    string_of(&out)
}

/// The signed URL for the canonical parts `p` and the signature bytes.
pub fn assemble_url(insecure: bool, p: &CanonicalParts, signature: &[u8]) -> (r: String)
    ensures
        r@ == url_text(insecure, p.host@, p.path@, p.query@, signature@),
{
    let mut out = if insecure {
        chars_of("http")
    } else {
        chars_of("https")
    };
    push_all(&mut out, &chars_of("://"));
    push_all(&mut out, &chars_of(p.host.as_str()));
    out.push('/');
    push_all(&mut out, &chars_of(p.path.as_str()));
    out.push('?');
    push_all(&mut out, &chars_of(p.query.as_str()));
    push_all(&mut out, &chars_of("&X-Goog-Signature="));
    push_all(&mut out, &hex_chars(signature));
    assert(out@ =~= url_text(insecure, p.host@, p.path@, p.query@, signature@));
    string_of(&out)
}

/// Whether the signing function, where one is given, accepts every input.
pub open spec fn signer_ready<F: Fn(&[u8]) -> Result<Vec<u8>, SignedURLError>>(
    opts: &SignedURLOptions<F>,
) -> bool {
    opts.sign_bytes is Some ==> forall|b: &[u8]| (#[trigger] opts.sign_bytes->0.requires((b,)))
}

/// The UTF-8 bytes that are signed for the canonical parts `t`.
pub open spec fn signed_bytes(
    t: (Seq<char>, Seq<char>, Seq<char>, Seq<char>, Seq<char>, Seq<char>),
) -> Seq<u8> {
    encode_utf8(string_to_sign(t.4, t.5, sha256_of(t.3)))
}

/// What a V4 signing owes: the error of the canonical parts; else, with a
/// private key, the URL over the key's signature of the signed bytes, or
/// `SigningFailed` where there is none; with a signing function, called on
/// the signed bytes, the URL over the signature it returned, or
/// `SigningFailed` where it returned an error.
pub open spec fn v4_outcome<F: Fn(&[u8]) -> Result<Vec<u8>, SignedURLError>>(
    bucket: Seq<char>,
    object: Seq<char>,
    opts: &SignedURLOptions<F>,
    now: int,
    r: Result<String, SignedURLError>,
) -> bool {
    match canonical_spec(bucket, object, opts, now) {
        Err(e) => r == Err::<String, SignedURLError>(e),
        Ok(t) => match opts.sign_bytes {
            None => match rs256_signature_of(opts.private_key@, signed_bytes(t)) {
                Some(sig) => r is Ok && r->Ok_0@ == url_text(opts.insecure, t.0, t.1, t.2, sig),
                None => r == Err::<String, SignedURLError>(SignedURLError::SigningFailed),
            },
            Some(f) => exists|b: &[u8]|
                {
                    &&& b@ == signed_bytes(t)
                    &&& r is Ok ==> exists|sig: Vec<u8>|
                        #[trigger] f.ensures((b,), Ok::<Vec<u8>, SignedURLError>(sig))
                            && r->Ok_0@ == url_text(opts.insecure, t.0, t.1, t.2, sig@)
                    &&& r is Err ==> r == Err::<String, SignedURLError>(
                        SignedURLError::SigningFailed,
                    ) && exists|e: SignedURLError|
                        #[trigger] f.ensures((b,), Err::<Vec<u8>, SignedURLError>(e))
                },
        },
    }
}

/// Signs a URL for `name` in `bucket` with the V4 scheme at instant `now`
/// (Unix seconds), through the signing function if one is given, else the
/// private key.
pub fn signed_url_v4<F: Fn(&[u8]) -> Result<Vec<u8>, SignedURLError>>(
    bucket: &str,
    name: &str,
    opts: &SignedURLOptions<F>,
    now: i64,
) -> (r: Result<String, SignedURLError>)
    requires
        now < opts.expires,
        signer_ready(opts),
    ensures
        v4_outcome(bucket@, name@, opts, now as int, r),
{
    let parts = match canonical_parts(bucket, name, opts, now) {
        Ok(p) => p,
        Err(e) => {
            return Err(e);
        },
    };
    let sts = string_to_sign_text(&parts);
    let bytes = sts.as_str().as_bytes();
    assert(bytes@ == encode_utf8(sts@));
    match &opts.sign_bytes {
        Some(f) => {
            let signed = f(bytes);
            match signed {
                Ok(sig) => {
                    let u = assemble_url(opts.insecure, &parts, sig.as_slice());
                    Ok(u)
                },
                Err(e) => {
                    assert(f.ensures((bytes,), Err::<Vec<u8>, SignedURLError>(e)));
                    Err(SignedURLError::SigningFailed)
                },
            }
        },
        None => match rs256_signature(opts.private_key.as_slice(), bytes) {
            Some(sig) => Ok(assemble_url(opts.insecure, &parts, sig.as_slice())),
            None => Err(SignedURLError::SigningFailed),
        },
    }
}

/// Checks the options at instant `now` (Unix seconds), then signs a URL for
/// `object` in bucket `name` with the V4 scheme.
pub fn signed_url<F: Fn(&[u8]) -> Result<Vec<u8>, SignedURLError>>(
    name: &str,
    object: &str,
    opts: &SignedURLOptions<F>,
    now: i64,
) -> (r: Result<String, SignedURLError>)
    requires
        signer_ready(opts),
    ensures
        match options_problem(opts, now as int) {
            Some(p) => r == Err::<String, SignedURLError>(SignedURLError::InvalidOption(p)),
            None => v4_outcome(name@, object@, opts, now as int, r),
        },
{
    match validate_options(opts, now) {
        Err(e) => Err(e),
        Ok(()) => signed_url_v4(name, object, opts, now),
    }
}

/// A bucket, by name.
pub struct BucketHandle {
    pub name: String,
}

impl BucketHandle {
    pub fn new(name: String) -> (r: BucketHandle)
        ensures
            r.name@ == name@,
    {
        BucketHandle { name }
    }

    /// `signed_url` for an object of this bucket.
    pub fn signed_url<F: Fn(&[u8]) -> Result<Vec<u8>, SignedURLError>>(
        &self,
        object: &str,
        opts: &SignedURLOptions<F>,
        now: i64,
    ) -> (r: Result<String, SignedURLError>)
        requires
            signer_ready(opts),
        ensures
            match options_problem(opts, now as int) {
                Some(p) => r == Err::<String, SignedURLError>(SignedURLError::InvalidOption(p)),
                None => v4_outcome(self.name@, object@, opts, now as int, r),
            },
    {
        signed_url(self.name.as_str(), object, opts, now)
    }
}

/// The pieces of a URL: scheme, host, the unescaped path and its encoding.
pub struct Url {
    pub schema: String,
    pub host: String,
    pub path: String,
    pub raw_path: String,
}

impl Url {
    /// An `https` URL with no host yet for `path`.
    pub fn new(path: &str) -> (r: Url)
        ensures
            r.schema@ == "https"@,
            r.host@.len() == 0,
            r.path@ == path@,
            r.raw_path@ == path_encoded(path@),
    {
        let raw_path = path_encode_v4(path);
        Url {
            schema: String::from_str("https"),
            host: String::new(),
            path: String::from_str(path),
            raw_path,
        }
    }
}

/// How a URL style forms host and path.
pub trait URLStyle {
    /// The host for a bucket.
    spec fn host_of(&self, bucket: Seq<char>) -> Seq<char>;

    /// The unescaped object path for a bucket and object.
    spec fn path_of(&self, bucket: Seq<char>, object: Seq<char>) -> Seq<char>;

    fn host(&self, bucket: &str) -> (r: String)
        ensures
            r@ == self.host_of(bucket@),
    ;

    fn path(&self, bucket: &str, object: &str) -> (r: String)
        ensures
            r@ == self.path_of(bucket@, object@),
    ;
}

impl URLStyle for URLStyleKind {
    open spec fn host_of(&self, bucket: Seq<char>) -> Seq<char> {
        style_host(*self, bucket)
    }

    open spec fn path_of(&self, bucket: Seq<char>, object: Seq<char>) -> Seq<char> {
        style_path(*self, bucket, object)
    }

    fn host(&self, bucket: &str) -> (r: String) {
        string_of(&style_host_chars(self, bucket))
    }

    fn path(&self, bucket: &str, object: &str) -> (r: String) {
        string_of(&style_path_chars(self, bucket, object))
    }
}

} // verus!
