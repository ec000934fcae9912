//! Canonical request headers: each `name:value` entry is trimmed, its name
//! lower-cased and its value's runs of spaces and tabs collapsed; entries that
//! share a name are merged, and the result is kept sorted by name.
use vstd::prelude::*;
use crate::text::{
    lower_of, collapse, trim, chars_of, string_of, trim_chars, collapse_chars, lower_chars,
};

verus! {

/// Index of the first `:` in `s`, or `s.len()` when there is none.
pub open spec fn first_colon(s: Seq<char>) -> int
    decreases s.len(),
{
    if s.len() == 0 {
        0
    } else if s[0] == ':' {
        0
    } else {
        1 + first_colon(s.drop_first())
    }
}

/// The name and value of one header entry, or `None` when the entry has no
/// colon or its value is blank.
pub open spec fn parse_header(h: Seq<char>) -> Option<(Seq<char>, Seq<char>)> {
    let c = first_colon(h);
    if c >= h.len() {
        None
    } else {
        let name = lower_of(trim(h.subrange(0, c)));
        let value = collapse(trim(h.subrange(c + 1, h.len() as int)));
        if value.len() == 0 {
            None
        } else {
            Some((name, value))
        }
    }
}

/// Lexicographic order on character sequences, by code point.
pub open spec fn seq_lt(a: Seq<char>, b: Seq<char>) -> bool
    decreases a.len(),
{
    if a.len() == 0 {
        b.len() > 0
    } else if b.len() == 0 {
        false
    } else if a[0] != b[0] {
        (a[0] as int) < (b[0] as int)
    } else {
        seq_lt(a.drop_first(), b.drop_first())
    }
}

/// Adds one header to a name-sorted list: its value is appended, after a
/// comma, to an entry of the same name, else a new entry is placed in order.
pub open spec fn insert_header(
    list: Seq<(Seq<char>, Seq<char>)>,
    name: Seq<char>,
    value: Seq<char>,
) -> Seq<(Seq<char>, Seq<char>)>
    decreases list.len(),
{
    if list.len() == 0 {
        seq![(name, value)]
    } else if list[0].0 == name {
        seq![(name, list[0].1 + seq![','] + value)] + list.drop_first()
    } else if seq_lt(name, list[0].0) {
        seq![(name, value)] + list
    } else {
        seq![list[0]] + insert_header(list.drop_first(), name, value)
    }
}

/// The sanitized, merged and sorted form of a header list.
pub open spec fn sanitize(hs: Seq<Seq<char>>) -> Seq<(Seq<char>, Seq<char>)>
    decreases hs.len(),
{
    if hs.len() == 0 {
        seq![]
    } else {
        let acc = sanitize(hs.drop_last());
        match parse_header(hs.last()) {
            Some(p) => insert_header(acc, p.0, p.1),
            None => acc,
        }
    }
}

/// One entry written back as `name:value`.
pub open spec fn render(e: (Seq<char>, Seq<char>)) -> Seq<char> {
    e.0 + seq![':'] + e.1
}

/// Each entry written back as `name:value`.
pub open spec fn rendered(es: Seq<(Seq<char>, Seq<char>)>) -> Seq<Seq<char>> {
    es.map_values(|e: (Seq<char>, Seq<char>)| render(e))
}

/// The names of the entries, in order.
pub open spec fn names_of(es: Seq<(Seq<char>, Seq<char>)>) -> Seq<Seq<char>> {
    es.map_values(|e: (Seq<char>, Seq<char>)| e.0)
}

pub open spec fn strings_view(v: Seq<String>) -> Seq<Seq<char>> {
    v.map_values(|s: String| s@)
}

pub open spec fn entries_view(v: Seq<(Vec<char>, Vec<char>)>) -> Seq<(Seq<char>, Seq<char>)> {
    v.map_values(|e: (Vec<char>, Vec<char>)| (e.0@, e.1@))
}

proof fn lemma_first_colon(s: Seq<char>, i: int)
    requires
        0 <= i <= s.len(),
        forall|j: int| 0 <= j < i ==> s[j] != ':',
        i == s.len() || s[i] == ':',
    ensures
        first_colon(s) == i,
    decreases i,
{
    if i > 0 {
        lemma_first_colon(s.drop_first(), i - 1);
    }
}

pub proof fn lemma_seq_lt_irreflexive(a: Seq<char>)
    ensures
        !seq_lt(a, a),
    decreases a.len(),
{
    if a.len() > 0 {
        lemma_seq_lt_irreflexive(a.drop_first());
    }
}

proof fn lemma_seq_lt_prefix(a: Seq<char>, b: Seq<char>, i: int)
    requires
        0 <= i <= a.len(),
        i <= b.len(),
        forall|j: int| 0 <= j < i ==> a[j] == b[j],
    ensures
        seq_lt(a, b) == seq_lt(a.subrange(i, a.len() as int), b.subrange(i, b.len() as int)),
    decreases i,
{
    if i > 0 {
        lemma_seq_lt_prefix(a.drop_first(), b.drop_first(), i - 1);
        assert(a.drop_first().subrange(i - 1, a.len() - 1) =~= a.subrange(i, a.len() as int));
        assert(b.drop_first().subrange(i - 1, b.len() - 1) =~= b.subrange(i, b.len() as int));
    } else {
        assert(a.subrange(0, a.len() as int) =~= a);
        assert(b.subrange(0, b.len() as int) =~= b);
    }
}

/// Whether `a` equals `b`.
pub fn chars_eq(a: &Vec<char>, b: &Vec<char>) -> (r: bool)
    ensures
        r == (a@ == b@),
{
    if a.len() != b.len() {
        return false;
    }
    let mut i: usize = 0;
    while i < a.len()
        invariant
            i <= a.len() == b.len(),
            forall|j: int| 0 <= j < i ==> a@[j] == b@[j],
        decreases a.len() - i,
    {
        if a[i] != b[i] {
            return false;
        }
        i += 1;
    }
    assert(a@ =~= b@);
    true
}

/// Whether `a` comes before `b` in lexicographic order.
pub fn chars_lt(a: &Vec<char>, b: &Vec<char>) -> (r: bool)
    ensures
        r == seq_lt(a@, b@),
{
    let mut i: usize = 0;
    while i < a.len() && i < b.len() && a[i] == b[i]
        invariant
            i <= a.len(),
            i <= b.len(),
            forall|j: int| 0 <= j < i ==> a@[j] == b@[j],
        decreases a.len() - i,
    {
        i += 1;
    }
    proof {
        lemma_seq_lt_prefix(a@, b@, i as int);
    }
    let ghost sa = a@.subrange(i as int, a.len() as int);
    let ghost sb = b@.subrange(i as int, b.len() as int);
    if i == a.len() {
        i < b.len()
    } else if i == b.len() {
        false
    } else {
        assert(sa[0] == a@[i as int] && sb[0] == b@[i as int]);
        a[i] < b[i]
    }
}

pub proof fn lemma_insert_skip(
    list: Seq<(Seq<char>, Seq<char>)>,
    name: Seq<char>,
    value: Seq<char>,
    i: int,
)
    requires
        0 <= i <= list.len(),
        forall|j: int| 0 <= j < i ==> seq_lt(#[trigger] list[j].0, name),
    ensures
        insert_header(list, name, value) == list.subrange(0, i) + insert_header(
            list.subrange(i, list.len() as int),
            name,
            value,
        ),
    decreases i,
{
    if i == 0 {
        assert(list.subrange(0, list.len() as int) =~= list);
        assert(list.subrange(0, 0) + insert_header(list, name, value) =~= insert_header(
            list,
            name,
            value,
        ));
    } else {
        lemma_seq_lt_irreflexive(name);
        assert(list[0].0 != name);
        assert(!seq_lt(name, list[0].0)) by {
            lemma_seq_lt_asym(list[0].0, name);
        }
        let rest = list.drop_first();
        assert forall|j: int| 0 <= j < i - 1 implies seq_lt(#[trigger] rest[j].0, name) by {
            assert(rest[j] == list[j + 1]);
        }
        lemma_insert_skip(rest, name, value, i - 1);
        assert(rest.subrange(i - 1, rest.len() as int) =~= list.subrange(i, list.len() as int));
        assert(seq![list[0]] + (rest.subrange(0, i - 1) + insert_header(
            list.subrange(i, list.len() as int),
            name,
            value,
        )) =~= list.subrange(0, i) + insert_header(
            list.subrange(i, list.len() as int),
            name,
            value,
        ));
    }
}

pub proof fn lemma_seq_lt_asym(a: Seq<char>, b: Seq<char>)
    requires
        seq_lt(a, b),
    ensures
        !seq_lt(b, a),
    decreases a.len(),
{
    if a.len() > 0 && b.len() > 0 && a[0] == b[0] {
        lemma_seq_lt_asym(a.drop_first(), b.drop_first());
    }
}

/// Adds one parsed header to the sorted list `list`.
fn insert_entry(list: &mut Vec<(Vec<char>, Vec<char>)>, name: Vec<char>, value: Vec<char>)
    ensures
        entries_view(final(list)@) == insert_header(entries_view(old(list)@), name@, value@),
{
    let ghost l0 = entries_view(list@);
    let mut i: usize = 0;
    while i < list.len()
        invariant
            i <= list.len(),
            list@ == old(list)@,
            l0 == entries_view(list@),
            forall|j: int| 0 <= j < i ==> seq_lt(#[trigger] l0[j].0, name@),
        decreases list.len() - i,
    {
        let ghost rest = l0.subrange(i as int, l0.len() as int);
        proof {
            lemma_insert_skip(l0, name@, value@, i as int);
            assert(rest[0] == l0[i as int]);
            assert(rest.drop_first() =~= l0.subrange(i + 1, l0.len() as int));
        }
        if chars_eq(&list[i].0, &name) {
            let mut merged = list[i].1.clone();
            merged.push(',');
            let mut k: usize = 0;
            while k < value.len()
                invariant
                    k <= value.len(),
                    merged@ == l0[i as int].1 + seq![','] + value@.subrange(0, k as int),
                decreases value.len() - k,
            {
                merged.push(value[k]);
                k += 1;
                assert(merged@ =~= l0[i as int].1 + seq![','] + value@.subrange(0, k as int));
            }
            assert(value@.subrange(0, value.len() as int) =~= value@);
            list.set(i, (name, merged));
            assert(entries_view(list@) =~= l0.subrange(0, i as int) + (seq![
                (name@, l0[i as int].1 + seq![','] + value@),
            ] + rest.drop_first()));
            return ;
        }
        if chars_lt(&name, &list[i].0) {
            list.insert(i, (name, value));
            assert(entries_view(list@) =~= l0.subrange(0, i as int) + (seq![(name@, value@)]
                + rest));
            return ;
        }
        proof {
            if !seq_lt(l0[i as int].0, name@) {
                lemma_seq_lt_total(l0[i as int].0, name@);
            }
        }
        i += 1;
    }
    proof {
        lemma_insert_skip(l0, name@, value@, i as int);
    }
    list.push((name, value));
    assert(entries_view(list@) =~= l0.subrange(0, i as int) + seq![(name@, value@)]);
}

pub proof fn lemma_seq_lt_total(a: Seq<char>, b: Seq<char>)
    ensures
        a == b || seq_lt(a, b) || seq_lt(b, a),
    decreases a.len(),
{
    if a.len() > 0 && b.len() > 0 && a[0] == b[0] {
        lemma_seq_lt_total(a.drop_first(), b.drop_first());
        if a.drop_first() == b.drop_first() {
            assert(a =~= seq![a[0]] + a.drop_first());
            assert(b =~= seq![b[0]] + b.drop_first());
        }
    } else if a.len() > 0 && b.len() > 0 {
        assert((a[0] as int) != (b[0] as int));
    } else if a.len() == 0 && b.len() == 0 {
        assert(a =~= b);
    }
}

/// The text of a header entry before and after its first colon, or `None`
/// where it has none.
pub fn split_header(h: &str) -> (r: Option<(Vec<char>, Vec<char>)>)
    ensures
        first_colon(h@) < h@.len() ==> r == Some::<(Vec<char>, Vec<char>)>(r->0) && (r->0).0@
            == h@.subrange(0, first_colon(h@)) && (r->0).1@ == h@.subrange(
            first_colon(h@) + 1,
            h@.len() as int,
        ),
        first_colon(h@) >= h@.len() ==> r is None,
{
    let cs = chars_of(h);
    let mut c: usize = 0;
    while c < cs.len() && cs[c] != ':'
        invariant
            c <= cs.len(),
            cs@ == h@,
            forall|j: int| 0 <= j < c ==> cs@[j] != ':',
        decreases cs.len() - c,
    {
        c += 1;
    }
    proof {
        lemma_first_colon(h@, c as int);
    }
    if c == cs.len() {
        return None;
    }
    let mut name_raw: Vec<char> = Vec::new();
    let mut k: usize = 0;
    while k < c
        invariant
            k <= c < cs.len(),
            name_raw@ == cs@.subrange(0, k as int),
        decreases c - k,
    {
        name_raw.push(cs[k]);
        k += 1;
        assert(name_raw@ =~= cs@.subrange(0, k as int));
    }
    let mut value_raw: Vec<char> = Vec::new();
    let mut k: usize = c + 1;
    while k < cs.len()
        invariant
            c < k <= cs.len(),
            value_raw@ == cs@.subrange(c + 1, k as int),
        decreases cs.len() - k,
    {
        value_raw.push(cs[k]);
        k += 1;
        assert(value_raw@ =~= cs@.subrange(c + 1, k as int));
    }
    Some((name_raw, value_raw))
}

/// The name and value of one header entry, as `parse_header` gives them.
fn parse_entry(h: &str) -> (r: Option<(Vec<char>, Vec<char>)>)
    ensures
        match parse_header(h@) {
            Some(p) => r == Some::<(Vec<char>, Vec<char>)>(r->0) && (r->0).0@ == p.0 && (r->0).1@ == p.1,
            None => r is None,
        },
{
    let (name_raw, value_raw) = match split_header(h) {
        Some(p) => p,
        None => {
            return None;
        },
    };
    let name = lower_chars(&trim_chars(&name_raw));
    let value = collapse_chars(&trim_chars(&value_raw));
    if value.len() == 0 {
        None
    } else {
        Some((name, value))
    }
}

/// The sorted, merged entries of a header list, as pairs of name and value.
pub fn sanitized_entries(hdrs: &[String]) -> (r: Vec<(Vec<char>, Vec<char>)>)
    ensures
        entries_view(r@) == sanitize(strings_view(hdrs@)),
{
    let mut list: Vec<(Vec<char>, Vec<char>)> = Vec::new();
    let mut i: usize = 0;
    while i < hdrs.len()
        invariant
            i <= hdrs.len(),
            entries_view(list@) == sanitize(strings_view(hdrs@).subrange(0, i as int)),
        decreases hdrs.len() - i,
    {
        let ghost pre = strings_view(hdrs@).subrange(0, i as int + 1);
        assert(pre.drop_last() =~= strings_view(hdrs@).subrange(0, i as int));
        assert(pre.last() == hdrs@[i as int]@);
        match parse_entry(hdrs[i].as_str()) {
            Some(p) => {
                insert_entry(&mut list, p.0, p.1);
            },
            None => {},
        }
        i += 1;
    }
    assert(strings_view(hdrs@).subrange(0, hdrs.len() as int) =~= strings_view(hdrs@));
    if list.len() == 0 {
        assert(entries_view(list@) =~= Seq::<(Seq<char>, Seq<char>)>::empty());
    }
    list
}

/// `name:value` for one entry.
pub fn render_entry(e: &(Vec<char>, Vec<char>)) -> (r: Vec<char>)
    ensures
        r@ == render((e.0@, e.1@)),
{
    let mut r = e.0.clone();
    r.push(':');
    let mut k: usize = 0;
    while k < e.1.len()
        invariant
            k <= e.1.len(),
            r@ == e.0@ + seq![':'] + e.1@.subrange(0, k as int),
        decreases e.1.len() - k,
    {
        r.push(e.1[k]);
        k += 1;
        assert(r@ =~= e.0@ + seq![':'] + e.1@.subrange(0, k as int));
    }
    assert(e.1@.subrange(0, e.1.len() as int) =~= e.1@);
    r
}

/// Sanitizes a list of `name:value` headers: trims each entry, lower-cases
/// its name (Unicode lower-casing) and collapses runs of spaces and of tabs
/// in its value. Entries without a colon or with a blank value are dropped;
/// values of one name are joined with commas; the result is sorted by name.
pub fn v4_sanitize_headers(hdrs: &[String]) -> (r: Vec<String>)
    ensures
        strings_view(r@) == rendered(sanitize(strings_view(hdrs@))),
{
    let entries = sanitized_entries(hdrs);
    let ghost es = entries_view(entries@);
    let mut r: Vec<String> = Vec::new();
    let mut i: usize = 0;
    while i < entries.len()
        invariant
            i <= entries.len(),
            es == entries_view(entries@),
            strings_view(r@) == rendered(es.subrange(0, i as int)),
        decreases entries.len() - i,
    {
        assert(es[i as int] == (entries@[i as int].0@, entries@[i as int].1@));
        let line = render_entry(&entries[i]);
        let s = string_of(&line);
        let ghost old_r = r@;
        r.push(s);
        assert(strings_view(r@) =~= strings_view(old_r).push(s@));
        assert(rendered(es.subrange(0, i + 1)) =~= rendered(es.subrange(0, i as int)).push(
            render(es[i as int]),
        ));
        i += 1;
        assert(strings_view(r@) =~= rendered(es.subrange(0, i as int)));
    }
    assert(es.subrange(0, i as int) =~= es);
    r
}

/// The lower-cased names of a header list, sorted, each once.
pub fn extract_header_names(kvs: &[String]) -> (r: Vec<String>)
    ensures
        strings_view(r@) == names_of(sanitize(strings_view(kvs@))),
{
    let entries = sanitized_entries(kvs);
    let ghost es = entries_view(entries@);
    let mut r: Vec<String> = Vec::new();
    let mut i: usize = 0;
    while i < entries.len()
        invariant
            i <= entries.len(),
            es == entries_view(entries@),
            strings_view(r@) == names_of(es.subrange(0, i as int)),
        decreases entries.len() - i,
    {
        assert(es[i as int] == (entries@[i as int].0@, entries@[i as int].1@));
        let s = string_of(&entries[i].0);
        let ghost old_r = r@;
        r.push(s);
        assert(strings_view(r@) =~= strings_view(old_r).push(s@));
        assert(names_of(es.subrange(0, i + 1)) =~= names_of(es.subrange(0, i as int)).push(
            es[i as int].0,
        ));
        i += 1;
        assert(strings_view(r@) =~= names_of(es.subrange(0, i as int)));
    }
    assert(es.subrange(0, i as int) =~= es);
    r
}

} // verus!
