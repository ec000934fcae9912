//! Encodings used in a signed URL: path segments, query pairs, decimal
//! numbers and hexadecimal bytes.
use vstd::prelude::*;
use crate::text::{chars_of, string_of};

verus! {

/// What `url_escape::encode_query` returns for a text.
pub uninterp spec fn query_escape_of(s: Seq<char>) -> Seq<char>;

/// What `url_escape::encode_component` returns for a text.
pub uninterp spec fn component_escape_of(s: Seq<char>) -> Seq<char>;

/// Relies on `url_escape::encode_query`: percent-encodes the characters
/// that the query percent-encode set names, as `%` and two hex digits; the
/// result depends on `s` alone. `/` is not in that set, so the result holds
/// a `/` only where `s` does.
#[verifier::external_body]
fn query_escape(s: &str) -> (r: String)
    ensures
        r@ == query_escape_of(s@),
        no_slash(s@) ==> no_slash(r@),
{
    url_escape::encode_query(s).into_owned()
}

/// Relies on `url_escape::encode_component`: percent-encodes the characters
/// that the component percent-encode set names; the result depends on `s` alone.
#[verifier::external_body]
fn component_escape(s: &str) -> (r: String)
    ensures
        r@ == component_escape_of(s@),
{
    url_escape::encode_component(s).into_owned()
}

/// Whether a text holds no `/`.
pub open spec fn no_slash(s: Seq<char>) -> bool {
    forall|i: int| 0 <= i < s.len() ==> s[i] != '/'
}

/// `query_escape_of` over character vectors.
pub fn query_escape_chars(s: &Vec<char>) -> (r: Vec<char>)
    ensures
        r@ == query_escape_of(s@),
        no_slash(s@) ==> no_slash(r@),
{
    let t = string_of(s);
    let e = query_escape(t.as_str());
    chars_of(e.as_str())
}

/// `component_escape_of` over character vectors.
pub fn component_escape_chars(s: &Vec<char>) -> (r: Vec<char>)
    ensures
        r@ == component_escape_of(s@),
{
    let t = string_of(s);
    let e = component_escape(t.as_str());
    chars_of(e.as_str())
}

/// Appends the characters of `s` to `out`.
pub fn push_all(out: &mut Vec<char>, s: &Vec<char>)
    ensures
        final(out)@ == old(out)@ + s@,
{
    let mut i: usize = 0;
    while i < s.len()
        invariant
            i <= s.len(),
            out@ == old(out)@ + s@.subrange(0, i as int),
        decreases s.len() - i,
    {
        out.push(s[i]);
        i += 1;
        assert(out@ =~= old(out)@ + s@.subrange(0, i as int));
    }
    assert(s@.subrange(0, s.len() as int) =~= s@);
}

/// The parts of `segs` with `sep` between each two.
pub open spec fn join_with(segs: Seq<Seq<char>>, sep: char) -> Seq<char>
    decreases segs.len(),
{
    if segs.len() == 0 {
        seq![]
    } else if segs.len() == 1 {
        segs[0]
    } else {
        join_with(segs.drop_last(), sep) + seq![sep] + segs.last()
    }
}

pub open spec fn vecs_view(v: Seq<Vec<char>>) -> Seq<Seq<char>> {
    v.map_values(|x: Vec<char>| x@)
}

/// Joins the parts with `sep` between each two.
pub fn join_chars(segs: &Vec<Vec<char>>, sep: char) -> (r: Vec<char>)
    ensures
        r@ == join_with(vecs_view(segs@), sep),
{
    let ghost sv = vecs_view(segs@);
    let mut out: Vec<char> = Vec::new();
    let mut i: usize = 0;
    while i < segs.len()
        invariant
            i <= segs.len(),
            sv == vecs_view(segs@),
            out@ == join_with(sv.subrange(0, i as int), sep),
        decreases segs.len() - i,
    {
        let ghost pre = sv.subrange(0, i + 1);
        assert(pre.drop_last() =~= sv.subrange(0, i as int));
        assert(pre.last() == segs@[i as int]@);
        if i > 0 {
            out.push(sep);
        } else {
            assert(out@ =~= Seq::<char>::empty());
        }
        push_all(&mut out, &segs[i]);
        i += 1;
        assert(out@ =~= join_with(sv.subrange(0, i as int), sep));
    }
    assert(sv.subrange(0, i as int) =~= sv);
    out
}

/// The `/`-separated segments of a path; there is always at least one.
pub open spec fn split_slash(s: Seq<char>) -> Seq<Seq<char>>
    decreases s.len(),
{
    if s.len() == 0 {
        seq![seq![]]
    } else {
        let init = split_slash(s.drop_last());
        if s.last() == '/' {
            init.push(seq![])
        } else {
            init.update(init.len() - 1, init.last().push(s.last()))
        }
    }
}

/// The segments of a split hold no `/`.
proof fn lemma_split_pieces_count(s: Seq<char>)
    ensures
        forall|i: int| 0 <= i < split_slash(s).len() ==> no_slash(#[trigger] split_slash(s)[i]),
    decreases s.len(),
{
    if s.len() > 0 {
        lemma_split_pieces_count(s.drop_last());
        lemma_split_slash_nonempty(s.drop_last());
        let init = split_slash(s.drop_last());
        if s.last() != '/' {
            let u = init.update(init.len() - 1, init.last().push(s.last()));
            assert forall|i: int| 0 <= i < u.len() implies no_slash(#[trigger] u[i]) by {
                if i == init.len() - 1 {
                    assert(no_slash(init[i]));
                    assert forall|k: int| 0 <= k < u[i].len() implies u[i][k] != '/' by {
                        if k < init[i].len() {
                            assert(u[i][k] == init[i][k]);
                        }
                    }
                } else {
                    assert(u[i] == init[i]);
                }
            }
        } else {
            let u = init.push(seq![]);
            assert forall|i: int| 0 <= i < u.len() implies no_slash(#[trigger] u[i]) by {
                if i < init.len() {
                    assert(u[i] == init[i]);
                }
            }
        }
    }
}

pub proof fn lemma_split_slash_nonempty(s: Seq<char>)
    ensures
        split_slash(s).len() >= 1,
    decreases s.len(),
{
    if s.len() > 0 {
        lemma_split_slash_nonempty(s.drop_last());
    }
}

/// Every `+` written as `%20`.
pub open spec fn replace_plus(s: Seq<char>) -> Seq<char>
    decreases s.len(),
{
    if s.len() == 0 {
        seq![]
    } else if s.last() == '+' {
        replace_plus(s.drop_last()) + seq!['%', '2', '0']
    } else {
        replace_plus(s.drop_last()) + seq![s.last()]
    }
}

pub open spec fn escape_segments(segs: Seq<Seq<char>>) -> Seq<Seq<char>> {
    segs.map_values(|x: Seq<char>| query_escape_of(x))
}

/// A path with each `/`-separated segment percent-encoded on its own, the
/// separators kept, and every `+` of the result written as `%20`.
pub open spec fn path_encoded(p: Seq<char>) -> Seq<char> {
    replace_plus(join_with(escape_segments(split_slash(p)), '/'))
}

/// The number of `/` in a text.
pub open spec fn slash_count(s: Seq<char>) -> nat
    decreases s.len(),
{
    if s.len() == 0 {
        0
    } else {
        slash_count(s.drop_last()) + if s.last() == '/' {
            1nat
        } else {
            0nat
        }
    }
}

proof fn lemma_slash_count_concat(a: Seq<char>, b: Seq<char>)
    ensures
        slash_count(a + b) == slash_count(a) + slash_count(b),
    decreases b.len(),
{
    if b.len() == 0 {
        assert(a + b =~= a);
    } else {
        lemma_slash_count_concat(a, b.drop_last());
        assert((a + b).drop_last() =~= a + b.drop_last());
    }
}

proof fn lemma_no_slash_count(s: Seq<char>)
    requires
        no_slash(s),
    ensures
        slash_count(s) == 0,
    decreases s.len(),
{
    if s.len() > 0 {
        lemma_no_slash_count(s.drop_last());
    }
}

proof fn lemma_split_count(s: Seq<char>)
    ensures
        split_slash(s).len() == slash_count(s) + 1,
    decreases s.len(),
{
    if s.len() > 0 {
        lemma_split_count(s.drop_last());
    }
}

proof fn lemma_replace_plus_count(s: Seq<char>)
    ensures
        slash_count(replace_plus(s)) == slash_count(s),
    decreases s.len(),
{
    if s.len() > 0 {
        lemma_replace_plus_count(s.drop_last());
        if s.last() == '+' {
            lemma_slash_count_concat(replace_plus(s.drop_last()), seq!['%', '2', '0']);
            lemma_no_slash_count(seq!['%', '2', '0']);
        } else {
            lemma_slash_count_concat(replace_plus(s.drop_last()), seq![s.last()]);
            assert(seq![s.last()].drop_last() =~= Seq::<char>::empty());
            assert(slash_count(seq![s.last()]) == slash_count(Seq::<char>::empty()) + if s.last() == '/' {
                1nat
            } else {
                0nat
            });
            assert(s.drop_last() + seq![s.last()] =~= s);
        }
    }
}

proof fn lemma_join_count(segs: Seq<Seq<char>>)
    requires
        segs.len() >= 1,
        forall|i: int| 0 <= i < segs.len() ==> no_slash(#[trigger] segs[i]),
    ensures
        slash_count(join_with(segs, '/')) + 1 == segs.len(),
    decreases segs.len(),
{
    if segs.len() == 1 {
        lemma_no_slash_count(segs[0]);
    } else {
        let d = segs.drop_last();
        assert forall|i: int| 0 <= i < d.len() implies no_slash(#[trigger] d[i]) by {
            assert(d[i] == segs[i]);
        }
        lemma_join_count(d);
        lemma_no_slash_count(segs.last());
        lemma_slash_count_concat(join_with(d, '/') + seq!['/'], segs.last());
        lemma_slash_count_concat(join_with(d, '/'), seq!['/']);
        assert(seq!['/'].drop_last() =~= Seq::<char>::empty());
        assert(seq!['/'].last() == '/');
        assert(slash_count(Seq::<char>::empty()) == 0);
        assert(slash_count(seq!['/']) == 1);
    }
}

/// Writes every `+` of `s` as `%20`.
pub fn replace_plus_chars(s: &Vec<char>) -> (r: Vec<char>)
    ensures
        r@ == replace_plus(s@),
{
    let mut out: Vec<char> = Vec::new();
    let mut i: usize = 0;
    while i < s.len()
        invariant
            i <= s.len(),
            out@ == replace_plus(s@.subrange(0, i as int)),
        decreases s.len() - i,
    {
        let ghost pre = s@.subrange(0, i + 1);
        assert(pre.drop_last() =~= s@.subrange(0, i as int));
        if s[i] == '+' {
            out.push('%');
            out.push('2');
            out.push('0');
        } else {
            out.push(s[i]);
        }
        i += 1;
        assert(out@ =~= replace_plus(s@.subrange(0, i as int)));
    }
    assert(s@.subrange(0, i as int) =~= s@);
    out
}

fn split_slash_chars(s: &Vec<char>) -> (r: Vec<Vec<char>>)
    ensures
        vecs_view(r@) == split_slash(s@),
{
    let mut done: Vec<Vec<char>> = Vec::new();
    let mut cur: Vec<char> = Vec::new();
    let mut i: usize = 0;
    assert(split_slash(s@.subrange(0, 0)) =~= vecs_view(done@).push(cur@));
    while i < s.len()
        invariant
            i <= s.len(),
            split_slash(s@.subrange(0, i as int)) == vecs_view(done@).push(cur@),
        decreases s.len() - i,
    {
        let ghost pre = s@.subrange(0, i + 1);
        assert(pre.drop_last() =~= s@.subrange(0, i as int));
        let ghost old_done = vecs_view(done@);
        if s[i] == '/' {
            let finished = cur;
            cur = Vec::new();
            done.push(finished);
            assert(vecs_view(done@) =~= old_done.push(finished@));
            assert(split_slash(pre) =~= vecs_view(done@).push(cur@));
        } else {
            let ghost old_cur = cur@;
            cur.push(s[i]);
            assert(split_slash(pre) =~= vecs_view(done@).push(cur@));
        }
        i += 1;
    }
    assert(s@.subrange(0, i as int) =~= s@);
    let ghost old_done = vecs_view(done@);
    let last = cur;
    done.push(last);
    assert(vecs_view(done@) =~= old_done.push(last@));
    done
}

/// Percent-encodes each `/`-separated segment of `path`, keeps the
/// separators, and writes every `+` of the result as `%20`.
pub fn path_encode_v4(path: &str) -> (r: String)
    ensures
        r@ == path_encoded(path@),
        split_slash(r@).len() == split_slash(path@).len(),
{
    let cs = chars_of(path);
    let segs = split_slash_chars(&cs);
    proof {
        lemma_split_pieces_count(path@);
    }
    let mut escaped: Vec<Vec<char>> = Vec::new();
    let mut i: usize = 0;
    while i < segs.len()
        invariant
            i <= segs.len(),
            vecs_view(escaped@) == escape_segments(vecs_view(segs@).subrange(0, i as int)),
            forall|j: int| 0 <= j < i ==> no_slash(#[trigger] vecs_view(escaped@)[j]),
            forall|j: int| 0 <= j < segs.len() ==> no_slash(#[trigger] vecs_view(segs@)[j]),
        decreases segs.len() - i,
    {
        assert(no_slash(vecs_view(segs@)[i as int]));
        let e = query_escape_chars(&segs[i]);
        let ghost old_e = vecs_view(escaped@);
        escaped.push(e);
        assert(vecs_view(escaped@) =~= old_e.push(e@));
        i += 1;
        assert(vecs_view(escaped@) =~= escape_segments(vecs_view(segs@).subrange(0, i as int)));
    }
    assert(vecs_view(segs@).subrange(0, i as int) =~= vecs_view(segs@));
    let joined = join_chars(&escaped, '/');
    proof {
        lemma_split_slash_nonempty(path@);
        lemma_join_count(vecs_view(escaped@));
        lemma_replace_plus_count(joined@);
        lemma_split_count(replace_plus(joined@));
        lemma_split_count(path@);
        lemma_split_pieces_count(path@);
    }
    string_of(&replace_plus_chars(&joined))
}

pub open spec fn digit_char(d: nat) -> char {
    if d == 0 { '0' } else if d == 1 { '1' } else if d == 2 { '2' } else if d == 3 { '3' }
    else if d == 4 { '4' } else if d == 5 { '5' } else if d == 6 { '6' } else if d == 7 { '7' }
    else if d == 8 { '8' } else if d == 9 { '9' } else if d == 10 { 'a' } else if d == 11 { 'b' }
    else if d == 12 { 'c' } else if d == 13 { 'd' } else if d == 14 { 'e' } else { 'f' }
}

/// The decimal digits of `n`, without leading zeros.
pub open spec fn decimal(n: nat) -> Seq<char>
    decreases n,
{
    if n < 10 {
        seq![digit_char(n)]
    } else {
        decimal(n / 10) + seq![digit_char(n % 10)]
    }
}

/// Two lower-case hexadecimal digits for each byte.
pub open spec fn hex_of(b: Seq<u8>) -> Seq<char>
    decreases b.len(),
{
    if b.len() == 0 {
        seq![]
    } else {
        hex_of(b.drop_last()) + seq![
            digit_char((b.last() / 16) as nat),
            digit_char((b.last() % 16) as nat),
        ]
    }
}

fn digit_exec(d: u8) -> (r: char)
    requires
        d < 16,
    ensures
        r == digit_char(d as nat),
{
    if d < 10 {
        (48u8 + d) as char
    } else {
        (87u8 + d) as char
    }
}

/// The decimal digits of `n`.
pub fn decimal_chars(n: u64) -> (r: Vec<char>)
    ensures
        r@ == decimal(n as nat),
    decreases n,
{
    if n < 10 {
        let mut v: Vec<char> = Vec::new();
        v.push(digit_exec(n as u8));
        assert(v@ =~= seq![digit_char(n as nat)]);
        v
    } else {
        let mut v = decimal_chars(n / 10);
        v.push(digit_exec((n % 10) as u8));
        v
    }
}

/// Lower-case hexadecimal, two digits for each byte.
pub fn hex_chars(b: &[u8]) -> (r: Vec<char>)
    ensures
        r@ == hex_of(b@),
{
    let mut out: Vec<char> = Vec::new();
    let mut i: usize = 0;
    while i < b.len()
        invariant
            i <= b.len(),
            out@ == hex_of(b@.subrange(0, i as int)),
        decreases b.len() - i,
    {
        let ghost pre = b@.subrange(0, i + 1);
        assert(pre.drop_last() =~= b@.subrange(0, i as int));
        out.push(digit_exec(b[i] / 16));
        out.push(digit_exec(b[i] % 16));
        i += 1;
        assert(out@ =~= hex_of(b@.subrange(0, i as int)));
    }
    assert(b@.subrange(0, i as int) =~= b@);
    out
}

} // verus!
