//! Properties that relate the library's functions, proved over their
//! specifications.
use vstd::prelude::*;
use crate::text::{lower_of, trim, trim_start, trim_end, is_ws, collapse, is_run_char};
use crate::headers::{
    first_colon, parse_header, sanitize, insert_header, render, rendered, seq_lt,
    lemma_seq_lt_total, lemma_insert_skip,
};
use crate::encoding::{decimal, digit_char};
use crate::signer::{payload_token, is_payload_header, query_params, canonical_spec, v4_outcome, scope_of};
use crate::options::{SignedURLOptions, SignedURLError, options_problem};
use crate::headers::strings_view;
use crate::options::{first_problem, method_allowed, SigningScheme, MAX_V4_LIFETIME};

verus! {

/// A request is valid exactly when the access id is set, exactly one
/// signing means is given, the method is allowed, the expiry lies in the
/// future (and, for V4, at most seven days ahead), and a given MD5 checksum
/// decodes to sixteen bytes.
pub proof fn lemma_valid_iff(
    access_id: Seq<char>,
    has_key: bool,
    has_signer: bool,
    method: Seq<char>,
    expires: int,
    md5: Seq<char>,
    md5_decoded: Option<Seq<u8>>,
    scheme: SigningScheme,
    now: int,
)
    requires
        now >= 0,
    ensures
        first_problem(access_id, has_key, has_signer, method, expires, md5, md5_decoded, scheme, now)
            is None <==> {
            &&& access_id.len() > 0
            &&& has_key != has_signer
            &&& method_allowed(method)
            &&& expires > now
            &&& (scheme == SigningScheme::SigningSchemeV4 ==> expires <= now + MAX_V4_LIFETIME)
            &&& (md5.len() == 0 || (md5_decoded is Some && md5_decoded->0.len() == 16))
        },
{
}

proof fn lemma_first_colon_props(s: Seq<char>)
    ensures
        0 <= first_colon(s) <= s.len(),
        first_colon(s) < s.len() ==> s[first_colon(s)] == ':',
    decreases s.len(),
{
    if s.len() > 0 && s[0] != ':' {
        lemma_first_colon_props(s.drop_first());
    }
}

proof fn lemma_first_colon_le(s: Seq<char>, j: int)
    requires
        0 <= j < s.len(),
        s[j] == ':',
    ensures
        first_colon(s) <= j,
    decreases j,
{
    if j > 0 && s[0] != ':' {
        lemma_first_colon_le(s.drop_first(), j - 1);
    }
}

proof fn lemma_first_colon_exact(s: Seq<char>, i: int)
    requires
        0 <= i <= s.len(),
        forall|j: int| 0 <= j < i ==> s[j] != ':',
        i == s.len() || s[i] == ':',
    ensures
        first_colon(s) == i,
    decreases i,
{
    if i > 0 {
        lemma_first_colon_exact(s.drop_first(), i - 1);
    }
}

/// The text of a header entry before its first colon.
pub open spec fn name_part(h: Seq<char>) -> Seq<char> {
    h.subrange(0, first_colon(h))
}

/// The text of a header entry from its first colon on.
pub open spec fn value_part(h: Seq<char>) -> Seq<char> {
    h.subrange(first_colon(h), h.len() as int)
}

/// Two header entries that differ at most in the case of their names: the
/// same text from the first colon on, and names with the same lower-case
/// form once trimmed.
pub open spec fn same_but_case(h: Seq<char>, g: Seq<char>) -> bool {
    value_part(h) == value_part(g) && lower_of(trim(name_part(h))) == lower_of(
        trim(name_part(g)),
    )
}

proof fn lemma_parse_same_but_case(h: Seq<char>, g: Seq<char>)
    requires
        same_but_case(h, g),
    ensures
        parse_header(h) == parse_header(g),
{
    lemma_first_colon_props(h);
    lemma_first_colon_props(g);
    let ch = first_colon(h);
    let cg = first_colon(g);
    let v = value_part(h);
    assert(v.len() == h.len() - ch);
    assert(value_part(g).len() == g.len() - cg);
    assert(name_part(h) == h.subrange(0, ch));
    assert(name_part(g) == g.subrange(0, cg));
    if ch < h.len() {
        assert(cg < g.len());
        assert(v.drop_first() =~= h.subrange(ch + 1, h.len() as int));
        assert(value_part(g).drop_first() =~= g.subrange(cg + 1, g.len() as int));
        assert(h.subrange(ch + 1, h.len() as int) == g.subrange(cg + 1, g.len() as int));
    }
}

proof fn lemma_payload_same_but_case(hs: Seq<Seq<char>>, gs: Seq<Seq<char>>)
    requires
        hs.len() == gs.len(),
        forall|i: int| 0 <= i < hs.len() ==> same_but_case(#[trigger] hs[i], gs[i]),
    ensures
        payload_token(hs) == payload_token(gs),
    decreases hs.len(),
{
    if hs.len() > 0 {
        let h = hs[0];
        let g = gs[0];
        assert(same_but_case(h, g));
        lemma_first_colon_props(h);
        lemma_first_colon_props(g);
        let ch = first_colon(h);
        let cg = first_colon(g);
        assert(value_part(h).len() == h.len() - ch);
        assert(value_part(g).len() == g.len() - cg);
        assert(name_part(h) == h.subrange(0, ch));
        assert(name_part(g) == g.subrange(0, cg));
        if ch < h.len() {
            assert(value_part(h).drop_first() =~= h.subrange(ch + 1, h.len() as int));
            assert(value_part(g).drop_first() =~= g.subrange(cg + 1, g.len() as int));
        }
        assert(is_payload_header(h) == is_payload_header(g));
        let hd = hs.drop_first();
        let gd = gs.drop_first();
        assert forall|i: int| 0 <= i < hd.len() implies same_but_case(#[trigger] hd[i], gd[i]) by {
            assert(same_but_case(hs[i + 1], gs[i + 1]));
        }
        lemma_payload_same_but_case(hd, gd);
    }
}

/// The case of header names does not matter: lists whose entries differ
/// only in the case of their names sanitize to the same entries, and so to
/// the same canonical headers and signed-header names.
pub proof fn lemma_name_case_irrelevant(hs: Seq<Seq<char>>, gs: Seq<Seq<char>>)
    requires
        hs.len() == gs.len(),
        forall|i: int| 0 <= i < hs.len() ==> same_but_case(#[trigger] hs[i], gs[i]),
    ensures
        sanitize(gs) == sanitize(hs),
    decreases hs.len(),
{
    if hs.len() > 0 {
        lemma_name_case_irrelevant(hs.drop_last(), gs.drop_last());
        lemma_parse_same_but_case(hs.last(), gs.last());
    }
}

/// Whether a run of spaces or tabs starts at `i`.
pub open spec fn run_at(v: Seq<char>, i: int) -> bool {
    v[i] == v[i + 1] && is_run_char(v[i])
}

pub open spec fn no_runs(v: Seq<char>) -> bool {
    forall|i: int| 0 <= i < v.len() - 1 ==> !#[trigger] run_at(v, i)
}

/// A sanitized value: not blank, trimmed, no runs of spaces or tabs.
pub open spec fn value_ok(v: Seq<char>) -> bool {
    v.len() > 0 && !is_ws(v[0]) && !is_ws(v.last()) && no_runs(v)
}

/// A name that sanitizing keeps as it is: no colon, and its own lower-case
/// form once trimmed.
pub open spec fn name_settled(n: Seq<char>) -> bool {
    (forall|i: int| 0 <= i < n.len() ==> n[i] != ':') && lower_of(trim(n)) == n
}

/// A list that sanitizing can give: entries sorted by distinct names, each
/// with a sanitized value.
pub open spec fn sanitized_form(l: Seq<(Seq<char>, Seq<char>)>) -> bool {
    &&& forall|i: int, j: int| 0 <= i < j < l.len() ==> seq_lt(#[trigger] l[i].0, #[trigger] l[j].0)
    &&& forall|i: int| 0 <= i < l.len() ==> value_ok(#[trigger] l[i].1)
}

proof fn lemma_collapse_fixed(v: Seq<char>)
    requires
        no_runs(v),
    ensures
        collapse(v) == v,
    decreases v.len(),
{
    if v.len() > 1 {
        let d = v.drop_first();
        assert(!run_at(v, 0));
        assert forall|i: int| 0 <= i < d.len() - 1 implies !#[trigger] run_at(d, i) by {
            assert(!run_at(v, i + 1));
            assert(d[i] == v[i + 1] && d[i + 1] == v[i + 2]);
        }
        lemma_collapse_fixed(d);
        assert(seq![v[0]] + d =~= v);
    }
}

proof fn lemma_trim_fixed(v: Seq<char>)
    requires
        v.len() == 0 || (!is_ws(v[0]) && !is_ws(v.last())),
    ensures
        trim(v) == v,
{
}

proof fn lemma_collapse_props(s: Seq<char>)
    requires
        s.len() > 0,
    ensures
        collapse(s).len() > 0,
        collapse(s)[0] == s[0],
        collapse(s).last() == s.last(),
        no_runs(collapse(s)),
    decreases s.len(),
{
    if s.len() > 1 {
        let d = s.drop_first();
        lemma_collapse_props(d);
        let cd = collapse(d);
        if !(s[0] == s[1] && is_run_char(s[0])) {
            let c = seq![s[0]] + cd;
            assert(collapse(s) == c);
            assert forall|i: int| 0 <= i < c.len() - 1 implies !#[trigger] run_at(c, i) by {
                if i > 0 {
                    assert(!run_at(cd, i - 1));
                    assert(c[i] == cd[i - 1] && c[i + 1] == cd[i]);
                } else {
                    assert(c[1] == cd[0]);
                }
            }
        }
    }
}

proof fn lemma_trim_start_shape(s: Seq<char>)
    ensures
        trim_start(s).len() <= s.len(),
        trim_start(s) == s.subrange(s.len() - trim_start(s).len(), s.len() as int),
        trim_start(s).len() > 0 ==> !is_ws(trim_start(s)[0]),
    decreases s.len(),
{
    if s.len() > 0 && is_ws(s[0]) {
        lemma_trim_start_shape(s.drop_first());
        let t = trim_start(s);
        assert(s.drop_first().subrange(s.len() - 1 - t.len(), s.len() - 1) =~= s.subrange(
            s.len() - t.len(),
            s.len() as int,
        ));
    } else {
        assert(s.subrange(0, s.len() as int) =~= s);
    }
}

proof fn lemma_trim_end_shape(s: Seq<char>)
    ensures
        trim_end(s) == s.subrange(0, trim_end(s).len() as int),
        trim_end(s).len() <= s.len(),
        trim_end(s).len() > 0 ==> !is_ws(trim_end(s).last()),
    decreases s.len(),
{
    if s.len() > 0 && is_ws(s.last()) {
        lemma_trim_end_shape(s.drop_last());
        let t = trim_end(s);
        assert(s.drop_last().subrange(0, t.len() as int) =~= s.subrange(0, t.len() as int));
    } else {
        assert(s.subrange(0, s.len() as int) =~= s);
    }
}

/// Trimmed text is empty or starts and ends with a non-blank character,
/// and every character of it is one of `s`.
proof fn lemma_trim_shape(s: Seq<char>)
    ensures
        trim(s).len() > 0 ==> !is_ws(trim(s)[0]) && !is_ws(trim(s).last()),
        forall|i: int| 0 <= i < trim(s).len() ==> exists|j: int| 0 <= j < s.len() && #[trigger] s[j]
            == #[trigger] trim(s)[i],
{
    let a = trim_start(s);
    lemma_trim_start_shape(s);
    lemma_trim_end_shape(a);
    let t = trim(s);
    let k = s.len() - a.len();
    assert forall|i: int| 0 <= i < t.len() implies exists|j: int| 0 <= j < s.len() && #[trigger] s[j]
        == #[trigger] t[i] by {
        assert(t[i] == a[i]);
        assert(a[i] == s[k + i]);
        assert(0 <= k + i < s.len());
    }
    if t.len() > 0 {
        assert(t[0] == a[0]);
    }
}

proof fn lemma_parsed_ok(h: Seq<char>)
    requires
        parse_header(h) is Some,
    ensures
        value_ok((parse_header(h)->0).1),
{
    lemma_first_colon_props(h);
    let c = first_colon(h);
    let x = h.subrange(c + 1, h.len() as int);
    lemma_trim_shape(x);
    lemma_collapse_props(trim(x));
}

proof fn lemma_value_join(a: Seq<char>, b: Seq<char>)
    requires
        value_ok(a),
        value_ok(b),
    ensures
        value_ok(a + seq![','] + b),
{
    let v = a + seq![','] + b;
    assert(v[0] == a[0]);
    assert(v.last() == b.last());
    assert forall|i: int| 0 <= i < v.len() - 1 implies !#[trigger] run_at(v, i) by {
        if i < a.len() - 1 {
            assert(!run_at(a, i));
            assert(v[i] == a[i] && v[i + 1] == a[i + 1]);
        } else if i == a.len() - 1 {
            assert(v[i + 1] == ',');
        } else if i == a.len() {
            assert(v[i] == ',');
        } else {
            assert(!run_at(b, i - a.len() - 1));
            assert(v[i] == b[i - a.len() - 1] && v[i + 1] == b[i - a.len()]);
        }
    }
}

pub proof fn lemma_seq_lt_trans(a: Seq<char>, b: Seq<char>, c: Seq<char>)
    requires
        seq_lt(a, b),
        seq_lt(b, c),
    ensures
        seq_lt(a, c),
    decreases a.len(),
{
    if a.len() > 0 && a[0] == b[0] && b[0] == c[0] {
        lemma_seq_lt_trans(a.drop_first(), b.drop_first(), c.drop_first());
    }
}

proof fn lemma_insert_form(l: Seq<(Seq<char>, Seq<char>)>, k: Seq<char>, v: Seq<char>)
    requires
        sanitized_form(l),
        value_ok(v),
    ensures
        sanitized_form(insert_header(l, k, v)),
        forall|i: int| 0 <= i < insert_header(l, k, v).len() ==> (#[trigger] insert_header(
            l,
            k,
            v,
        )[i].0 == k || exists|j: int| 0 <= j < l.len() && l[j].0 == insert_header(l, k, v)[i].0),
    decreases l.len(),
{
    let r = insert_header(l, k, v);
    if l.len() == 0 {
        assert(r[0] == (k, v));
    } else if l[0].0 == k {
        lemma_value_join(l[0].1, v);
        assert(r[0] == (k, l[0].1 + seq![','] + v));
        assert forall|i: int| 0 < i < r.len() implies #[trigger] r[i] == l[i] by {
            assert(r[i] == l.drop_first()[i - 1]);
        }
        assert forall|i: int| 0 <= i < r.len() implies #[trigger] r[i].0 == l[i].0 by {
            if i > 0 {
                assert(r[i] == l[i]);
            }
        }
        assert forall|i: int, j: int| 0 <= i < j < r.len() implies seq_lt(
            #[trigger] r[i].0,
            #[trigger] r[j].0,
        ) by {
            assert(r[i].0 == l[i].0 && r[j].0 == l[j].0);
        }
        assert forall|i: int| 0 <= i < r.len() implies value_ok(#[trigger] r[i].1) by {
            if i > 0 {
                assert(r[i] == l[i]);
            }
        }
        assert forall|i: int| 0 <= i < r.len() implies (#[trigger] r[i].0 == k || exists|j: int|
            0 <= j < l.len() && l[j].0 == r[i].0) by {
            assert(r[i].0 == l[i].0);
        }
    } else if seq_lt(k, l[0].0) {
        assert forall|i: int, j: int| 0 <= i < j < r.len() implies seq_lt(
            #[trigger] r[i].0,
            #[trigger] r[j].0,
        ) by {
            if i == 0 {
                if j > 1 {
                    lemma_seq_lt_trans(k, l[0].0, l[j - 1].0);
                }
            } else {
                assert(r[i] == l[i - 1] && r[j] == l[j - 1]);
            }
        }
        assert forall|i: int| 0 <= i < r.len() implies (#[trigger] r[i].0 == k || exists|j: int|
            0 <= j < l.len() && l[j].0 == r[i].0) by {
            if i > 0 {
                assert(r[i] == l[i - 1]);
            }
        }
    } else {
        lemma_seq_lt_total(l[0].0, k);
        let d = l.drop_first();
        assert forall|i: int, j: int| 0 <= i < j < d.len() implies seq_lt(
            #[trigger] d[i].0,
            #[trigger] d[j].0,
        ) by {
            assert(d[i] == l[i + 1] && d[j] == l[j + 1]);
        }
        assert forall|i: int| 0 <= i < d.len() implies value_ok(#[trigger] d[i].1) by {
            assert(d[i] == l[i + 1]);
        }
        assert(sanitized_form(d));
        lemma_insert_form(d, k, v);
        let rd = insert_header(d, k, v);
        assert(r == seq![l[0]] + rd);
        assert forall|i: int| 0 <= i < rd.len() implies seq_lt(l[0].0, #[trigger] rd[i].0) by {
            if rd[i].0 != k {
                let j = choose|j: int| 0 <= j < d.len() && d[j].0 == rd[i].0;
                assert(d[j] == l[j + 1]);
            }
        }
        assert forall|i: int, j: int| 0 <= i < j < r.len() implies seq_lt(
            #[trigger] r[i].0,
            #[trigger] r[j].0,
        ) by {
            assert(r[j] == rd[j - 1]);
            if i > 0 {
                assert(r[i] == rd[i - 1]);
            }
        }
        assert forall|i: int| 0 <= i < r.len() implies value_ok(#[trigger] r[i].1) by {
            if i > 0 {
                assert(r[i] == rd[i - 1]);
            }
        }
        assert forall|i: int| 0 <= i < r.len() implies (#[trigger] r[i].0 == k || exists|j: int|
            0 <= j < l.len() && l[j].0 == r[i].0) by {
            if i > 0 {
                assert(r[i] == rd[i - 1]);
                if rd[i - 1].0 != k {
                    let j = choose|j: int| 0 <= j < d.len() && d[j].0 == rd[i - 1].0;
                    assert(d[j] == l[j + 1]);
                }
            }
        }
    }
}

proof fn lemma_sanitize_form(hs: Seq<Seq<char>>)
    ensures
        sanitized_form(sanitize(hs)),
    decreases hs.len(),
{
    if hs.len() > 0 {
        lemma_sanitize_form(hs.drop_last());
        if parse_header(hs.last()) is Some {
            lemma_parsed_ok(hs.last());
            let p = parse_header(hs.last())->0;
            lemma_insert_form(sanitize(hs.drop_last()), p.0, p.1);
        }
    }
}

proof fn lemma_parse_render(e: (Seq<char>, Seq<char>))
    requires
        name_settled(e.0),
        value_ok(e.1),
    ensures
        parse_header(render(e)) == Some(e),
{
    let h = render(e);
    let c = e.0.len() as int;
    assert(h[c] == ':');
    lemma_first_colon_exact(h, c);
    assert(h.subrange(0, c) =~= e.0);
    assert(h.subrange(c + 1, h.len() as int) =~= e.1);
    lemma_trim_fixed(e.1);
    lemma_collapse_fixed(e.1);
}

proof fn lemma_refold(l: Seq<(Seq<char>, Seq<char>)>)
    requires
        sanitized_form(l),
        forall|i: int| 0 <= i < l.len() ==> name_settled(#[trigger] l[i].0),
    ensures
        sanitize(rendered(l)) == l,
    decreases l.len(),
{
    if l.len() == 0 {
        assert(rendered(l) =~= Seq::<Seq<char>>::empty());
    } else {
        let d = l.drop_last();
        assert forall|i: int, j: int| 0 <= i < j < d.len() implies seq_lt(
            #[trigger] d[i].0,
            #[trigger] d[j].0,
        ) by {
            assert(d[i] == l[i] && d[j] == l[j]);
        }
        assert forall|i: int| 0 <= i < d.len() implies value_ok(#[trigger] d[i].1) by {
            assert(d[i] == l[i]);
        }
        assert forall|i: int| 0 <= i < d.len() implies name_settled(#[trigger] d[i].0) by {
            assert(d[i] == l[i]);
        }
        lemma_refold(d);
        assert(rendered(l).drop_last() =~= rendered(d));
        let e = l.last();
        lemma_parse_render(e);
        assert forall|j: int| 0 <= j < d.len() implies seq_lt(#[trigger] d[j].0, e.0) by {
            assert(d[j] == l[j]);
        }
        lemma_insert_skip(d, e.0, e.1, d.len() as int);
        assert(d.subrange(0, d.len() as int) =~= d);
        assert(d.subrange(d.len() as int, d.len() as int) =~= Seq::<(Seq<char>, Seq<char>)>::empty());
        assert(d + seq![(e.0, e.1)] =~= l);
    }
}

/// Sanitizing is idempotent where lower-casing settles the names it gives:
/// when each resulting name holds no colon and is its own lower-case form
/// once trimmed, sanitizing the rendered result gives that same result.
/// Values, merging and order need nothing more.
pub proof fn lemma_sanitize_idempotent(hs: Seq<Seq<char>>)
    requires
        forall|i: int| 0 <= i < sanitize(hs).len() ==> name_settled(#[trigger] sanitize(hs)[i].0),
    ensures
        sanitize(rendered(sanitize(hs))) == sanitize(hs),
{
    lemma_sanitize_form(hs);
    lemma_refold(sanitize(hs));
}

proof fn lemma_decimal_nonempty(n: nat)
    ensures
        decimal(n).len() >= 1,
        n >= 10 ==> decimal(n).len() >= 2,
    decreases n,
{
    if n >= 10 {
        lemma_decimal_nonempty(n / 10);
    }
}

proof fn lemma_digit_injective(a: nat, b: nat)
    requires
        a < 10,
        b < 10,
        digit_char(a) == digit_char(b),
    ensures
        a == b,
{
}

/// Different numbers have different decimal texts.
pub proof fn lemma_decimal_injective(a: nat, b: nat)
    requires
        decimal(a) == decimal(b),
    ensures
        a == b,
    decreases a,
{
    lemma_decimal_nonempty(a);
    lemma_decimal_nonempty(b);
    if a >= 10 && b >= 10 {
        let da = decimal(a);
        let db = decimal(b);
        assert(da.last() == digit_char(a % 10));
        assert(db.last() == digit_char(b % 10));
        assert(a % 10 == b % 10);
        assert(da.drop_last() =~= decimal(a / 10));
        assert(db.drop_last() =~= decimal(b / 10));
        lemma_decimal_injective(a / 10, b / 10);
        assert(a == (a / 10) * 10 + a % 10);
        assert(b == (b / 10) * 10 + b % 10);
    } else if a < 10 && b < 10 {
        assert(decimal(a) == seq![digit_char(a)]);
        assert(decimal(b) == seq![digit_char(b)]);
        assert(decimal(a)[0] == decimal(b)[0]);
        assert(seq![digit_char(a)][0] == digit_char(a));
        assert(seq![digit_char(b)][0] == digit_char(b));
        lemma_digit_injective(a, b);
    }
}

/// Signing the same request at two different instants, before the same
/// expiry, gives different signed parameter lists: the `X-Goog-Expires`
/// values differ, the `X-Goog-Date` values differ where the timestamps do,
/// and the `X-Goog-Credential` values differ where the dates do.
pub proof fn lemma_instants_differ(
    access_id: Seq<char>,
    ymd1: Seq<char>,
    ts1: Seq<char>,
    now1: int,
    ymd2: Seq<char>,
    ts2: Seq<char>,
    now2: int,
    expires: int,
    signed: Seq<char>,
    extra: Seq<(Seq<char>, Seq<Seq<char>>)>,
)
    requires
        now1 < expires,
        now2 < expires,
        now1 != now2,
    ensures
        ts1 != ts2 ==> query_params(access_id, ymd1, ts1, (expires - now1) as nat, signed, extra)[2].1
            != query_params(access_id, ymd2, ts2, (expires - now2) as nat, signed, extra)[2].1,
        ymd1 != ymd2 ==> query_params(access_id, ymd1, ts1, (expires - now1) as nat, signed, extra)[1].1
            != query_params(access_id, ymd2, ts2, (expires - now2) as nat, signed, extra)[1].1,
        query_params(access_id, ymd1, ts1, (expires - now1) as nat, signed, extra)[3].1
            != query_params(access_id, ymd2, ts2, (expires - now2) as nat, signed, extra)[3].1,
        query_params(access_id, ymd1, ts1, (expires - now1) as nat, signed, extra)
            != query_params(access_id, ymd2, ts2, (expires - now2) as nat, signed, extra),
{
    let p1 = query_params(access_id, ymd1, ts1, (expires - now1) as nat, signed, extra);
    let p2 = query_params(access_id, ymd2, ts2, (expires - now2) as nat, signed, extra);
    if p1[3].1 == p2[3].1 {
        assert(p1[3].1[0] == p2[3].1[0]);
        lemma_decimal_injective((expires - now1) as nat, (expires - now2) as nat);
    }
    if ts1 != ts2 && p1[2].1 == p2[2].1 {
        assert(p1[2].1[0] == p2[2].1[0]);
    }
    if ymd1 != ymd2 && p1[1].1 == p2[1].1 {
        let c1 = access_id + seq!['/'] + scope_of(ymd1);
        let c2 = access_id + seq!['/'] + scope_of(ymd2);
        assert(p1[1].1[0] == p2[1].1[0]);
        assert(c1 == c2);
        let k: int = access_id.len() as int + 1;
        let sfx = "/auto/storage/goog4_request"@;
        assert(ymd1.len() == ymd2.len());
        assert(c1.subrange(k, k + ymd1.len() as int) =~= ymd1);
        assert(c2.subrange(k, k + ymd2.len() as int) =~= ymd2);
    }
}

/// The case of header names does not matter to a signing call: two option
/// sets that differ only in the case of their header names are judged
/// alike, give the same canonical parts, and allow the same outcomes.
pub proof fn lemma_signing_ignores_name_case<F: Fn(&[u8]) -> Result<Vec<u8>, SignedURLError>>(
    bucket: Seq<char>,
    object: Seq<char>,
    o1: &SignedURLOptions<F>,
    o2: &SignedURLOptions<F>,
    now: int,
    r: Result<String, SignedURLError>,
)
    requires
        o1.google_access_id@ == o2.google_access_id@,
        o1.private_key@ == o2.private_key@,
        o1.sign_bytes == o2.sign_bytes,
        o1.method@ == o2.method@,
        o1.expires == o2.expires,
        o1.content_type@ == o2.content_type@,
        o1.md5@ == o2.md5@,
        o1.query_parameters@ == o2.query_parameters@,
        o1.style == o2.style,
        o1.insecure == o2.insecure,
        o1.scheme == o2.scheme,
        o1.headers@.len() == o2.headers@.len(),
        forall|i: int|
            0 <= i < o1.headers@.len() ==> same_but_case(#[trigger] o1.headers@[i]@, o2.headers@[i]@),
    ensures
        options_problem(o1, now) == options_problem(o2, now),
        canonical_spec(bucket, object, o1, now) == canonical_spec(bucket, object, o2, now),
        v4_outcome(bucket, object, o1, now, r) == v4_outcome(bucket, object, o2, now, r),
{
    let h1 = strings_view(o1.headers@);
    let h2 = strings_view(o2.headers@);
    assert forall|i: int| 0 <= i < h1.len() implies same_but_case(#[trigger] h1[i], h2[i]) by {
        assert(same_but_case(o1.headers@[i]@, o2.headers@[i]@));
    }
    lemma_name_case_irrelevant(h1, h2);
    lemma_payload_same_but_case(h1, h2);
}

} // verus!
