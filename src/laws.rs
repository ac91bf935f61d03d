//! Properties of the type-expression parser and the document reader, proved over their specs.
use vstd::prelude::*;
use crate::marker::{marker, Marker};
use crate::number::{all_digits, i32_text, is_digit, unsigned_part};
use crate::text::{
    contains, ends_with, find, find_from, is_ws, lemma_trim_fixed, lemma_trim_len, occurs_at,
    split, starts_with, trim,
};
use crate::schema::{
    find_object_from, lemma_run_stops, parse_document, parse_header, run, step, DocModel,
    ObjectModel, PendingModel, SchemaModel, SchemeErrorModel, finish,
};
use crate::types::{
    is_primitive_spec, keyword_type, parse_plain, parse_reducer, parse_type, reducer_parts,
    rfind_char, sort_of, Sort, TypeErrorModel, TypeModel,
};

verus! {

proof fn lemma_find_from_some(s: Seq<char>, p: Seq<char>, i: int, k: int)
    requires
        0 <= i <= k,
        occurs_at(s, p, k),
    ensures
        find_from(s, p, i) is Some,
    decreases k - i,
{
    if !occurs_at(s, p, i) {
        lemma_find_from_some(s, p, i + 1, k);
    }
}

proof fn lemma_find_from_none(s: Seq<char>, p: Seq<char>, i: int)
    requires
        forall|j: int| i <= j ==> !occurs_at(s, p, j),
    ensures
        find_from(s, p, i) is None,
    decreases s.len() + 1 - i,
{
    if !(i < 0 || i + p.len() > s.len()) {
        lemma_find_from_none(s, p, i + 1);
    }
}

proof fn lemma_find_from_first(s: Seq<char>, p: Seq<char>, i: int, k: int)
    requires
        0 <= i <= k,
        occurs_at(s, p, k),
        forall|j: int| i <= j < k ==> !occurs_at(s, p, j),
    ensures
        find_from(s, p, i) == Some(k),
    decreases k - i,
{
    if i < k {
        lemma_find_from_first(s, p, i + 1, k);
    }
}

/// A text without some character of `p` does not contain `p`.
proof fn lemma_missing_char(s: Seq<char>, p: Seq<char>, idx: int)
    requires
        0 <= idx < p.len(),
        forall|j: int| 0 <= j < s.len() ==> s[j] != p[idx],
    ensures
        !contains(s, p),
{
    assert forall|j: int| 0 <= j implies !occurs_at(s, p, j) by {
        if occurs_at(s, p, j) {
            assert(s.subrange(j, j + p.len())[idx] == s[j + idx]);
        }
    }
    lemma_find_from_none(s, p, 0);
}

/// Putting `a` before and `b` after a text adds no occurrence of `p` when `p` starts with
/// no `a` and ends with no `b`.
proof fn lemma_wrap_missing(e: Seq<char>, a: char, b: char, p: Seq<char>)
    requires
        !contains(e, p),
        p.len() > 0,
        p[0] != a,
        p[p.len() - 1] != b,
    ensures
        !contains(seq![a] + e + seq![b], p),
{
    let w = seq![a] + e + seq![b];
    assert forall|j: int| 0 <= j implies !occurs_at(w, p, j) by {
        if occurs_at(w, p, j) {
            if j == 0 {
                assert(w.subrange(j, j + p.len())[0] == w[0]);
            } else if j + p.len() == w.len() {
                assert(w.subrange(j, j + p.len())[p.len() - 1] == w[w.len() - 1]);
            } else {
                assert(e.subrange(j - 1, j - 1 + p.len()) =~= w.subrange(j, j + p.len()));
                lemma_find_from_some(e, p, 0, j - 1);
            }
        }
    }
    lemma_find_from_none(w, p, 0);
}

/// What the keywords have in common: no whitespace at either end, and none of the
/// characters that the other forms are built from.
proof fn lemma_keyword_chars(k: Seq<char>)
    requires
        keyword_type(k) is Some,
    ensures
        k.len() > 0,
        !is_ws(k[0]),
        !is_ws(k[k.len() - 1]),
        forall|j: int|
            0 <= j < k.len() ==> #[trigger] k[j] != '.' && k[j] != ':' && k[j] != '[' && k[j]
                != ']',
{
}

/// Each keyword (`int`, `float`, `str`, `bool`, `{@epoch}`, `{@path}`, `!`) reads as its
/// own primitive or null type.
pub proof fn law_keyword_reads_as_its_type(k: Seq<char>)
    requires
        keyword_type(k) is Some,
    ensures
        parse_type(k) == Ok::<TypeModel, TypeErrorModel>(keyword_type(k)->0),
{
    lemma_keyword_chars(k);
    lemma_trim_fixed(k);
    lemma_missing_char(k, marker(Marker::Range), 0);
    lemma_missing_char(k, marker(Marker::FieldRef), 1);
    lemma_missing_char(k, marker(Marker::SelfRef), 5);
    lemma_missing_char(k, marker(Marker::Sparse), 4);
}

/// A text whose first character differs from that of `p` neither starts with nor equals `p`.
proof fn lemma_first_char_differs(s: Seq<char>, p: Seq<char>)
    requires
        s.len() > 0,
        p.len() > 0,
        s[0] != p[0],
    ensures
        !starts_with(s, p),
        s != p,
{
    if starts_with(s, p) {
        assert(s.subrange(0, p.len() as int)[0] == s[0]);
    }
}

/// No keyword starts with `c`, and so no text that starts with `c` starts with a keyword
/// or a reducible keyword.
proof fn lemma_no_keyword_start(s: Seq<char>)
    requires
        s.len() > 0,
        s[0] != 's' && s[0] != 'i' && s[0] != 'f' && s[0] != 'b' && s[0] != '{',
    ensures
        keyword_type(s) is None || s == marker(Marker::Bang),
        !starts_with(s, marker(Marker::KwStr)),
        !starts_with(s, marker(Marker::KwInt)),
        !starts_with(s, marker(Marker::KwFloat)),
        !starts_with(s, marker(Marker::KwEpoch)),
        !starts_with(s, marker(Marker::KwPath)),
{
    lemma_first_char_differs(s, marker(Marker::KwStr));
    lemma_first_char_differs(s, marker(Marker::KwInt));
    lemma_first_char_differs(s, marker(Marker::KwFloat));
    lemma_first_char_differs(s, marker(Marker::KwBool));
    lemma_first_char_differs(s, marker(Marker::KwEpoch));
    lemma_first_char_differs(s, marker(Marker::KwPath));
}

/// The seven types that keywords name.
pub open spec fn is_keyword_type(m: TypeModel) -> bool {
    m is Str || m is Int || m is Float || m is Bool || m is Epoch || m is Path || m is Null
}

/// Only a keyword, with whitespace around it at most, reads as a primitive or null type.
pub proof fn law_only_keywords_read_as_keyword_types(s: Seq<char>)
    ensures
        parse_type(s) is Ok && is_keyword_type(parse_type(s)->Ok_0) ==> keyword_type(trim(s))
            == Some(parse_type(s)->Ok_0),
{
    lemma_trim_len(s);
}

/// A list element with no `:` and no reference marker.
pub open spec fn plain_element(e: Seq<char>) -> bool {
    !contains(e, marker(Marker::Colon)) && !contains(e, marker(Marker::FieldRef)) && !contains(
        e,
        marker(Marker::SelfRef),
    ) && !contains(e, marker(Marker::Sparse))
}

/// `[e]` reads as the list of what `e` reads as, and fails as `e` fails.
pub proof fn law_list_reads_its_element(e: Seq<char>)
    requires
        plain_element(e),
    ensures
        parse_type(seq!['['] + e + seq![']']) == match parse_type(e) {
            Ok(t) => Ok(TypeModel::List(Box::new(t))),
            Err(x) => Err::<TypeModel, TypeErrorModel>(x),
        },
{
    let w = seq!['['] + e + seq![']'];
    assert(w[0] == '[');
    assert(w[w.len() - 1] == ']');
    lemma_trim_fixed(w);
    lemma_wrap_missing(e, '[', ']', marker(Marker::Colon));
    lemma_wrap_missing(e, '[', ']', marker(Marker::FieldRef));
    lemma_wrap_missing(e, '[', ']', marker(Marker::SelfRef));
    lemma_wrap_missing(e, '[', ']', marker(Marker::Sparse));
    lemma_no_keyword_start(w);
    lemma_first_char_differs(w, marker(Marker::Bang));
    assert(w.subrange(1, w.len() - 1) =~= e);
    assert(starts_with(w, marker(Marker::Open))) by {
        assert(w.subrange(0, 1) =~= marker(Marker::Open));
    }
}

/// A name: letters, digits and underscores, at least one.
pub open spec fn is_name(n: Seq<char>) -> bool {
    n.len() > 0 && forall|j: int|
        0 <= j < n.len() ==> {
            let c = #[trigger] n[j];
            ('a' <= c && c <= 'z') || ('A' <= c && c <= 'Z') || ('0' <= c && c <= '9') || c
                == '_'
        }
}

/// `!k` for a primitive keyword `k` reads as the nullable form of what `k` reads as.
pub proof fn law_nullable_primitive(k: Seq<char>)
    requires
        is_primitive_spec(k),
    ensures
        parse_type(k) == Ok::<TypeModel, TypeErrorModel>(keyword_type(k)->0),
        parse_type(seq!['!'] + k) == Ok::<TypeModel, TypeErrorModel>(
            TypeModel::NullType { which: Box::new(keyword_type(k)->0) },
        ),
{
    law_keyword_reads_as_its_type(k);
    lemma_keyword_chars(k);
    let w = seq!['!'] + k;
    assert(w[0] == '!');
    assert(w[w.len() - 1] == k[k.len() - 1]);
    lemma_trim_fixed(w);
    assert forall|j: int| 0 <= j < w.len() implies w[j] != '.' by {
        if j > 0 {
            assert(w[j] == k[j - 1]);
        }
    }
    lemma_missing_char(w, marker(Marker::FieldRef), 1);
    lemma_missing_char(w, marker(Marker::SelfRef), 5);
    lemma_missing_char(w, marker(Marker::Sparse), 4);
    lemma_no_keyword_start(w);
    lemma_first_char_differs(w, marker(Marker::Open));
    assert(w != marker(Marker::Bang)) by {
        assert(w.len() > 1);
    }
    assert(w.subrange(1, w.len() as int) =~= k);
}

/// `!n` for a name `n` that is no primitive keyword reads as a nullable reference to the
/// object named `n`.
pub proof fn law_nullable_object(n: Seq<char>)
    requires
        is_name(n),
        !is_primitive_spec(n),
    ensures
        parse_type(seq!['!'] + n) == Ok::<TypeModel, TypeErrorModel>(
            TypeModel::NullType { which: Box::new(TypeModel::Object { object_name: n }) },
        ),
{
    let w = seq!['!'] + n;
    assert(w[0] == '!');
    assert(w[w.len() - 1] == n[n.len() - 1]);
    lemma_trim_fixed(w);
    assert forall|j: int| 0 <= j < w.len() implies w[j] != '.' by {
        if j > 0 {
            assert(w[j] == n[j - 1]);
        }
    }
    lemma_missing_char(w, marker(Marker::FieldRef), 1);
    lemma_missing_char(w, marker(Marker::SelfRef), 5);
    lemma_missing_char(w, marker(Marker::Sparse), 4);
    lemma_no_keyword_start(w);
    lemma_first_char_differs(w, marker(Marker::Open));
    assert(w != marker(Marker::Bang)) by {
        assert(w.len() > 1);
    }
    assert(w.subrange(1, w.len() as int) =~= n);
}

/// The shape of `[@k:v]` for keywords `k` and `v`.
proof fn lemma_map_shape(k: Seq<char>, v: Seq<char>, w: Seq<char>)
    requires
        keyword_type(k) is Some,
        keyword_type(v) is Some,
        w == seq!['[', '@'] + k + seq![':'] + v + seq![']'],
    ensures
        trim(w) == w,
        w.len() > 0,
        w[0] == '[',
        keyword_type(w) is None,
        !contains(w, marker(Marker::FieldRef)),
        !contains(w, marker(Marker::SelfRef)),
        !contains(w, marker(Marker::Sparse)),
        !starts_with(w, marker(Marker::KwStr)),
        !starts_with(w, marker(Marker::KwInt)),
        !starts_with(w, marker(Marker::KwFloat)),
        !starts_with(w, marker(Marker::KwEpoch)),
        !starts_with(w, marker(Marker::KwPath)),
        starts_with(w, marker(Marker::Open)),
        starts_with(w, marker(Marker::MapOpen)),
        ends_with(w, marker(Marker::Close)),
        find(w, marker(Marker::Colon)) == Some(2 + k.len() as int),
        2 + k.len() + 1 < w.len(),
        w.subrange(2, 2 + k.len() as int) == k,
        w.subrange(2 + k.len() as int + 1, w.len() - 1) == v,
{
    lemma_keyword_chars(k);
    lemma_keyword_chars(v);
    let c = 2 + k.len() as int;
    assert(w.len() == c + 1 + v.len() + 1);
    assert(w[0] == '[');
    assert(w[w.len() - 1] == ']');
    assert(w[c] == ':');
    lemma_trim_fixed(w);
    assert forall|j: int| 0 <= j < w.len() implies w[j] != '.' by {
        if 2 <= j < c {
            assert(w[j] == k[j - 2]);
        } else if c < j < w.len() - 1 {
            assert(w[j] == v[j - c - 1]);
        }
    }
    assert forall|j: int| 0 <= j < c implies !occurs_at(w, marker(Marker::Colon), j) by {
        if 2 <= j {
            assert(w[j] == k[j - 2]);
        }
        assert(w.subrange(j, j + 1)[0] == w[j]);
    }
    assert(occurs_at(w, marker(Marker::Colon), c)) by {
        assert(w.subrange(c, c + 1) =~= marker(Marker::Colon));
    }
    lemma_find_from_first(w, marker(Marker::Colon), 0, c);
    lemma_missing_char(w, marker(Marker::FieldRef), 1);
    lemma_missing_char(w, marker(Marker::SelfRef), 5);
    lemma_missing_char(w, marker(Marker::Sparse), 4);
    lemma_no_keyword_start(w);
    lemma_first_char_differs(w, marker(Marker::Bang));
    assert(w.subrange(0, 1) =~= marker(Marker::Open));
    assert(w.subrange(0, 2) =~= marker(Marker::MapOpen));
    assert(w.subrange(w.len() - 1, w.len() as int) =~= marker(Marker::Close));
    assert(w.subrange(2, c) =~= k);
    assert(w.subrange(c + 1, w.len() - 1) =~= v);
}

/// `[@k:v]` for keywords `k` and `v` reads as the map from what `k` reads as to what `v`
/// reads as.
pub proof fn law_map_reads_key_and_value(k: Seq<char>, v: Seq<char>)
    requires
        keyword_type(k) is Some,
        keyword_type(v) is Some,
    ensures
        parse_type(k) is Ok,
        parse_type(v) is Ok,
        parse_type(seq!['[', '@'] + k + seq![':'] + v + seq![']']) == Ok::<
            TypeModel,
            TypeErrorModel,
        >(TypeModel::Dict(Box::new(parse_type(k)->Ok_0), Box::new(parse_type(v)->Ok_0))),
{
    law_keyword_reads_as_its_type(k);
    law_keyword_reads_as_its_type(v);
    let w = seq!['[', '@'] + k + seq![':'] + v + seq![']'];
    lemma_map_shape(k, v, w);
    assert(parse_type(w) == parse_plain(w));
}

/// No character of `s` is `c`.
pub open spec fn lacks(s: Seq<char>, c: char) -> bool {
    forall|j: int| 0 <= j < s.len() ==> s[j] != c
}

/// The first `c` in `a + seq![c] + b`, when `a` holds none, is just after `a`.
proof fn lemma_first_char_at(a: Seq<char>, c: char, b: Seq<char>)
    requires
        lacks(a, c),
    ensures
        find(a + seq![c] + b, seq![c]) == Some(a.len() as int),
{
    let w = a + seq![c] + b;
    assert forall|j: int| 0 <= j < a.len() implies !occurs_at(w, seq![c], j) by {
        assert(w.subrange(j, j + 1)[0] == w[j]);
        assert(w[j] == a[j]);
    }
    assert(w.subrange(a.len() as int, a.len() as int + 1) =~= seq![c]);
    lemma_find_from_first(w, seq![c], 0, a.len() as int);
}

/// The parenthesized text of a header selects its sort: `>` descending, `<` ascending,
/// anything else (nothing included) the default.
pub proof fn law_header_sort(s: Seq<char>, rest: Seq<char>, objects: Seq<ObjectModel>)
    requires
        lacks(s, ')'),
    ensures
        parse_header(seq!['('] + s + seq![')'] + rest, objects) matches Ok((p, _)) ==> p.sort
            == sort_of(s),
        sort_of(seq!['>']) == Sort::Descending,
        sort_of(seq!['<']) == Sort::Ascending,
        s != seq!['>'] && s != seq!['<'] ==> sort_of(s) == Sort::Default,
{
    assert(seq!['<'][0] != seq!['>'][0]);
    let line = seq!['('] + s + seq![')'] + rest;
    let a = seq!['('] + s;
    assert(lacks(a, ')')) by {
        assert forall|j: int| 0 <= j < a.len() implies a[j] != ')' by {
            if j > 0 {
                assert(a[j] == s[j - 1]);
            }
        }
    }
    assert(line =~= a + seq![')'] + rest);
    lemma_first_char_at(a, ')', rest);
    assert(marker(Marker::ParenClose) =~= seq![')']);
    assert(line.subrange(1, a.len() as int) =~= s);
}

/// A header that opens no body finishes its object at once, with no fields.
pub proof fn law_bodiless_object_is_empty(st: DocModel, raw: Seq<char>)
    requires
        st.open is None,
        trim(raw).len() > 0,
        trim(raw)[0] == '(',
        !ends_with(trim(raw), marker(Marker::BraceOpen)),
    ensures
        step(st, raw) matches Ok(next) ==> next.open is None && next.objects.len()
            == st.objects.len() + 1 && next.objects.last().fields.len() == 0,
{
    lemma_first_char_differs(trim(raw), marker(Marker::Comment));
}

/// How `(s)n(:q)tail` is cut: the parent's name is `q`, trimmed, and the name is `n`,
/// trimmed.
proof fn lemma_extension_header(s: Seq<char>, n: Seq<char>, q: Seq<char>, tail: Seq<char>)
    requires
        lacks(s, ')'),
        lacks(n, ':'),
        lacks(q, ')'),
    ensures
        ({
            let line = seq!['('] + s + seq![')'] + n + seq!['(', ':'] + q + seq![')'] + tail;
            let c = 1 + s.len() as int;
            let after = line.subrange(c + 1, line.len() as int);
            let x = n.len() as int;
            let rest = after.subrange(x + 2, after.len() as int);
            &&& find(line, marker(Marker::ParenClose)) == Some(c)
            &&& 1 <= c < line.len()
            &&& line.subrange(1, c) == s
            &&& find(after, marker(Marker::Extends)) == Some(x)
            &&& x + 2 <= after.len()
            &&& after.subrange(0, x) == n
            &&& find(rest, marker(Marker::ParenClose)) == Some(q.len() as int)
            &&& q.len() <= rest.len()
            &&& rest.subrange(0, q.len() as int) == q
        }),
{
    let line = seq!['('] + s + seq![')'] + n + seq!['(', ':'] + q + seq![')'] + tail;
    let a = seq!['('] + s;
    assert(lacks(a, ')')) by {
        assert forall|j: int| 0 <= j < a.len() implies a[j] != ')' by {
            if j > 0 {
                assert(a[j] == s[j - 1]);
            }
        }
    }
    let after = n + seq!['(', ':'] + q + seq![')'] + tail;
    assert(line =~= a + seq![')'] + after);
    lemma_first_char_at(a, ')', after);
    assert(marker(Marker::ParenClose) =~= seq![')']);
    let c = a.len() as int;
    assert(line.subrange(c + 1, line.len() as int) =~= after);
    assert(line.subrange(1, c) =~= s);
    let x = n.len() as int;
    assert forall|j: int| 0 <= j < x implies !occurs_at(after, marker(Marker::Extends), j) by {
        assert(after.subrange(j, j + 2)[1] == after[j + 1]);
        if j + 1 < x {
            assert(after[j + 1] == n[j + 1]);
        }
    }
    assert(after.subrange(x, x + 2) =~= marker(Marker::Extends));
    lemma_find_from_first(after, marker(Marker::Extends), 0, x);
    assert(after.subrange(0, x) =~= n);
    let rest = after.subrange(x + 2, after.len() as int);
    assert(rest =~= q + seq![')'] + tail);
    lemma_first_char_at(q, ')', tail);
    assert(rest.subrange(0, q.len() as int) =~= q);
}

/// A header `(s)n(:q)tail` whose parent no finished object is named after fails with
/// `ParentNotFound`.
pub proof fn law_unknown_parent(
    s: Seq<char>,
    n: Seq<char>,
    q: Seq<char>,
    tail: Seq<char>,
    objects: Seq<ObjectModel>,
)
    requires
        lacks(s, ')'),
        lacks(n, ':'),
        lacks(q, ')'),
        find_object_from(objects, trim(q), 0) is None,
    ensures
        parse_header(
            seq!['('] + s + seq![')'] + n + seq!['(', ':'] + q + seq![')'] + tail,
            objects,
        ) == Err::<(PendingModel, bool), SchemeErrorModel>(
            SchemeErrorModel::ParentNotFound { name: trim(q) },
        ),
{
    lemma_extension_header(s, n, q, tail);
}

/// A header `(s)n(:q)tail` whose parent is a finished object declares an object named `n`,
/// trimmed, sorted by `s`, with the first finished object named `q`, trimmed, as its parent
/// and no fields yet.
pub proof fn law_known_parent(
    s: Seq<char>,
    n: Seq<char>,
    q: Seq<char>,
    tail: Seq<char>,
    objects: Seq<ObjectModel>,
)
    requires
        lacks(s, ')'),
        lacks(n, ':'),
        lacks(q, ')'),
        find_object_from(objects, trim(q), 0) is Some,
    ensures
        parse_header(
            seq!['('] + s + seq![')'] + n + seq!['(', ':'] + q + seq![')'] + tail,
            objects,
        ) is Ok,
        ({
            let p = parse_header(
                seq!['('] + s + seq![')'] + n + seq!['(', ':'] + q + seq![')'] + tail,
                objects,
            )->Ok_0.0;
            &&& p.name == trim(n)
            &&& p.sort == sort_of(s)
            &&& p.parent == find_object_from(objects, trim(q), 0)
            &&& p.fields.len() == 0
        }),
{
    lemma_extension_header(s, n, q, tail);
}

/// The keywords that a range may follow.
pub open spec fn is_reducible_keyword(b: Seq<char>) -> bool {
    b == marker(Marker::KwStr) || b == marker(Marker::KwInt) || b == marker(Marker::KwFloat) || b
        == marker(Marker::KwEpoch) || b == marker(Marker::KwPath)
}

/// The characters of an `i32` literal are digits and signs.
proof fn lemma_number_chars(t: Seq<char>)
    requires
        i32_text(t) is Some,
    ensures
        forall|j: int|
            0 <= j < t.len() ==> is_digit(#[trigger] t[j]) || t[j] == '-' || t[j] == '+',
{
    let d = unsigned_part(t);
    assert(all_digits(d));
    assert forall|j: int| 0 <= j < t.len() implies is_digit(#[trigger] t[j]) || t[j] == '-'
        || t[j] == '+' by {
        if t[0] == '-' || t[0] == '+' {
            if j > 0 {
                assert(t[j] == d[j - 1]);
            }
        } else {
            assert(t[j] == d[j]);
        }
    }
}

proof fn lemma_rfind_at(s: Seq<char>, c: char, j: int, k: int)
    requires
        0 <= k < j <= s.len(),
        s[k] == c,
        forall|m: int| k < m < j ==> s[m] != c,
    ensures
        rfind_char(s, c, j) == Some(k),
    decreases j - k,
{
    if s[j - 1] != c {
        lemma_rfind_at(s, c, j - 1, k);
    }
}

/// No occurrence of `p` when no `p[idx]` in `s` comes right before a `p[idx + 1]`.
proof fn lemma_missing_pair(s: Seq<char>, p: Seq<char>, idx: int)
    requires
        0 <= idx,
        idx + 1 < p.len(),
        forall|j: int|
            0 <= j && j + 1 < s.len() && #[trigger] s[j + 1] == p[idx + 1] ==> s[j] != p[idx],
    ensures
        !contains(s, p),
{
    assert forall|j: int| 0 <= j implies !occurs_at(s, p, j) by {
        if occurs_at(s, p, j) {
            assert(s.subrange(j, j + p.len())[idx] == s[j + idx]);
            assert(s.subrange(j, j + p.len())[idx + 1] == s[j + idx + 1]);
        }
    }
    lemma_find_from_none(s, p, 0);
}

/// Where the characters of `b[st..en]` lie: `[` at `b.len()`, `..` at `i`.
#[verifier::rlimit(60)]
proof fn lemma_reducer_chars(b: Seq<char>, st: Seq<char>, en: Seq<char>, w: Seq<char>, i: int)
    requires
        is_reducible_keyword(b),
        st.len() == 0 || i32_text(st) is Some,
        i32_text(en) is Some,
        w == b + seq!['['] + st + seq!['.', '.'] + en + seq![']'],
        i == b.len() + 1 + st.len(),
    ensures
        keyword_type(b) is Some,
        w.len() == i + 2 + en.len() + 1,
        w[b.len() as int] == '[',
        w[i] == '.',
        w[i + 1] == '.',
        trim(w) == w,
        forall|j: int| 0 <= j < i ==> #[trigger] w[j] != '.',
        forall|j: int| b.len() < j < i ==> #[trigger] w[j] != '[',
        forall|j: int| i + 1 < j < w.len() ==> #[trigger] w[j] != '.',
        w[i - 1] != '}' && w[i - 1] != 's',
        w.subrange(0, b.len() as int) == b,
        w.subrange(b.len() as int + 1, i) == st,
        w.subrange(i + 2, w.len() as int) == en + seq![']'] + seq![],
        lacks(en, ']'),
{
    lemma_keyword_chars(b);
    if st.len() > 0 {
        lemma_number_chars(st);
    }
    lemma_number_chars(en);
    let o = b.len() as int;
    assert(w[0] == b[0]);
    assert(w[w.len() - 1] == ']');
    lemma_trim_fixed(w);
    assert forall|j: int| 0 <= j < i implies #[trigger] w[j] != '.' && (o < j ==> w[j] != '[') by {
        if j < o {
            assert(w[j] == b[j]);
        } else if o < j {
            assert(w[j] == st[j - o - 1]);
        }
    }
    assert forall|j: int| i + 1 < j < w.len() implies #[trigger] w[j] != '.' by {
        if j < w.len() - 1 {
            assert(w[j] == en[j - i - 2]);
        }
    }
    if i - 1 > o {
        assert(w[i - 1] == st[i - 1 - o - 1]);
    }
    assert(w.subrange(0, o) =~= b);
    assert(w.subrange(o + 1, i) =~= st);
    assert(w.subrange(i + 2, w.len() as int) =~= en + seq![']'] + seq![]);
    assert forall|j: int| 0 <= j < en.len() implies en[j] != ']' by {
        assert(is_digit(en[j]) || en[j] == '-' || en[j] == '+');
    }
}

/// `b[st..en]` holds no reference marker, and its range marker and pieces are where the
/// grammar looks for them.
proof fn lemma_reducer_shape(b: Seq<char>, st: Seq<char>, en: Seq<char>, w: Seq<char>, i: int)
    requires
        is_reducible_keyword(b),
        i == b.len() + 1 + st.len(),
        w.len() == i + 2 + en.len() + 1,
        w[b.len() as int] == '[',
        w[i] == '.',
        w[i + 1] == '.',
        forall|j: int| 0 <= j < i ==> #[trigger] w[j] != '.',
        forall|j: int| b.len() < j < i ==> #[trigger] w[j] != '[',
        forall|j: int| i + 1 < j < w.len() ==> #[trigger] w[j] != '.',
        w[i - 1] != '}' && w[i - 1] != 's',
        w.subrange(0, b.len() as int) == b,
        w.subrange(b.len() as int + 1, i) == st,
        w.subrange(i + 2, w.len() as int) == en + seq![']'] + seq![],
        lacks(en, ']'),
    ensures
        b.len() < w.len(),
        starts_with(w, b),
        !contains(w, marker(Marker::FieldRef)),
        !contains(w, marker(Marker::SelfRef)),
        !contains(w, marker(Marker::Sparse)),
        contains(w, marker(Marker::Range)),
        reducer_parts(w) == Some((b, st, en)),
{
    let o = b.len() as int;
    lemma_missing_pair(w, marker(Marker::FieldRef), 0);
    lemma_missing_pair(w, marker(Marker::SelfRef), 4);
    lemma_missing_pair(w, marker(Marker::Sparse), 3);
    assert forall|j: int| 0 <= j < i implies !occurs_at(w, marker(Marker::Range), j) by {
        assert(w.subrange(j, j + 2)[0] == w[j]);
    }
    assert(w.subrange(i, i + 2) =~= marker(Marker::Range));
    lemma_find_from_first(w, marker(Marker::Range), 0, i);
    lemma_rfind_at(w, '[', i, o);
    let right = w.subrange(i + 2, w.len() as int);
    lemma_first_char_at(en, ']', seq![]);
    assert(marker(Marker::Close) =~= seq![']']);
    assert(right.subrange(0, en.len() as int) =~= en);
}

/// `b[start..end]` for a reducible keyword `b` and `i32` literals reads as the range of what
/// `b` reads as, with those bounds; without a start (`b[..end]`) the start is 0.
pub proof fn law_reducer_reads_bounds(b: Seq<char>, st: Seq<char>, en: Seq<char>)
    requires
        is_reducible_keyword(b),
        st.len() == 0 || i32_text(st) is Some,
        i32_text(en) is Some,
    ensures
        parse_type(b + seq!['['] + st + seq!['.', '.'] + en + seq![']']) == Ok::<
            TypeModel,
            TypeErrorModel,
        >(
            TypeModel::Reducer {
                which: Box::new(parse_type(b)->Ok_0),
                start: if st.len() == 0 {
                    0
                } else {
                    i32_text(st)->0
                },
                end: i32_text(en)->0,
            },
        ),
        parse_type(b) is Ok,
{
    let w = b + seq!['['] + st + seq!['.', '.'] + en + seq![']'];
    let i = b.len() as int + 1 + st.len();
    lemma_reducer_chars(b, st, en, w, i);
    lemma_reducer_shape(b, st, en, w, i);
    law_keyword_reads_as_its_type(b);
    assert(parse_type(w) == parse_reducer(w));
}

/// A line never takes away a finished object.
proof fn lemma_step_keeps_objects(st: DocModel, raw: Seq<char>)
    ensures
        step(st, raw) matches Ok(next) ==> next.objects.len() >= st.objects.len()
            && next.objects.subrange(0, st.objects.len() as int) == st.objects,
{
    if step(st, raw) is Ok {
        let next = step(st, raw)->Ok_0;
        assert(next.objects.subrange(0, st.objects.len() as int) =~= st.objects);
    }
}

/// Reading more lines never takes away a finished object.
proof fn lemma_run_keeps_objects(lines: Seq<Seq<char>>, n: int, m: int)
    requires
        0 <= n <= m <= lines.len(),
        run(lines, m) is Ok,
    ensures
        run(lines, n) is Ok,
        run(lines, m)->Ok_0.objects.len() >= run(lines, n)->Ok_0.objects.len(),
        run(lines, m)->Ok_0.objects.subrange(0, run(lines, n)->Ok_0.objects.len() as int)
            == run(lines, n)->Ok_0.objects,
    decreases m - n,
{
    if n < m {
        if run(lines, m - 1) is Err {
            if m - 1 > 0 {
                lemma_run_stops(lines, m - 1, m);
            }
        }
        lemma_run_keeps_objects(lines, n, m - 1);
        lemma_step_keeps_objects(run(lines, m - 1)->Ok_0, lines[m - 1]);
        let a = run(lines, n)->Ok_0.objects;
        let b = run(lines, m - 1)->Ok_0.objects;
        let c = run(lines, m)->Ok_0.objects;
        assert(c.subrange(0, a.len() as int) =~= b.subrange(0, a.len() as int));
    } else {
        assert(run(lines, m)->Ok_0.objects.subrange(0, run(lines, m)->Ok_0.objects.len() as int)
            =~= run(lines, m)->Ok_0.objects);
    }
}

/// A document that reads gives every line before its end a state that reads too, and keeps
/// the objects finished by then, in order, at the front of its own.
proof fn lemma_document_keeps_objects(path: Seq<char>, content: Seq<char>, n: int)
    requires
        0 <= n <= split(content, '\n').len(),
        parse_document(path, content) is Ok,
    ensures
        run(split(content, '\n'), n) is Ok,
        parse_document(path, content)->Ok_0.objects.len() >= run(
            split(content, '\n'),
            n,
        )->Ok_0.objects.len(),
        parse_document(path, content)->Ok_0.objects.subrange(
            0,
            run(split(content, '\n'), n)->Ok_0.objects.len() as int,
        ) == run(split(content, '\n'), n)->Ok_0.objects,
{
    let lines = split(content, '\n');
    lemma_run_keeps_objects(lines, n, lines.len() as int);
}

/// In a document, a header line that opens no body, met outside any body, finishes the
/// object it declares at once: it stands at the index that counts the objects finished
/// before it, with the name, sort and parent that the header gives and no fields.
pub proof fn law_document_bodiless_object(path: Seq<char>, content: Seq<char>, i: int)
    requires
        0 <= i < split(content, '\n').len(),
        run(split(content, '\n'), i) is Ok,
        run(split(content, '\n'), i)->Ok_0.open is None,
        trim(split(content, '\n')[i]).len() > 0,
        trim(split(content, '\n')[i])[0] == '(',
        !ends_with(trim(split(content, '\n')[i]), marker(Marker::BraceOpen)),
        parse_document(path, content) is Ok,
    ensures
        parse_header(
            trim(split(content, '\n')[i]),
            run(split(content, '\n'), i)->Ok_0.objects,
        ) is Ok,
        parse_document(path, content)->Ok_0.objects.len() > run(
            split(content, '\n'),
            i,
        )->Ok_0.objects.len(),
        parse_document(path, content)->Ok_0.objects[run(
            split(content, '\n'),
            i,
        )->Ok_0.objects.len() as int] == finish(
            parse_header(
                trim(split(content, '\n')[i]),
                run(split(content, '\n'), i)->Ok_0.objects,
            )->Ok_0.0,
        ),
        parse_document(path, content)->Ok_0.objects[run(
            split(content, '\n'),
            i,
        )->Ok_0.objects.len() as int].fields.len() == 0,
{
    let lines = split(content, '\n');
    let st = run(lines, i)->Ok_0;
    law_bodiless_object_is_empty(st, lines[i]);
    lemma_document_keeps_objects(path, content, i + 1);
    let next = run(lines, i + 1)->Ok_0;
    let k = st.objects.len() as int;
    let d = parse_document(path, content)->Ok_0;
    lemma_first_char_differs(trim(lines[i]), marker(Marker::Comment));
    assert(run(lines, i + 1) == step(st, lines[i]));
    assert(d.objects.subrange(0, next.objects.len() as int)[k] == next.objects[k]);
}

/// In a document, a header `(s)n(:q)tail`, with whitespace around it at most, whose parent
/// no earlier object is named after makes the whole document fail with `ParentNotFound`,
/// whether or not a body is open, when no earlier line failed.
pub proof fn law_document_unknown_parent(
    path: Seq<char>,
    content: Seq<char>,
    i: int,
    s: Seq<char>,
    n: Seq<char>,
    q: Seq<char>,
    tail: Seq<char>,
)
    requires
        0 <= i < split(content, '\n').len(),
        trim(split(content, '\n')[i]) == seq!['('] + s + seq![')'] + n + seq!['(', ':'] + q
            + seq![')'] + tail,
        lacks(s, ')'),
        lacks(n, ':'),
        lacks(q, ')'),
        run(split(content, '\n'), i) is Ok,
        find_object_from(run(split(content, '\n'), i)->Ok_0.objects, trim(q), 0) is None,
    ensures
        parse_document(path, content) == Err::<SchemaModel, SchemeErrorModel>(
            SchemeErrorModel::ParentNotFound { name: trim(q) },
        ),
{
    let lines = split(content, '\n');
    let st = run(lines, i)->Ok_0;
    law_unknown_parent(s, n, q, tail, st.objects);
    let line = trim(lines[i]);
    assert(line[0] == '(');
    lemma_first_char_differs(line, marker(Marker::Comment));
    assert(run(lines, i + 1) == step(st, lines[i]));
    lemma_run_stops(lines, i + 1, lines.len() as int);
}

/// While the object that a header declares is open, and once it is finished, it keeps the
/// sort that the header gave it.
proof fn lemma_sort_kept(lines: Seq<Seq<char>>, i: int, m: int, k: int, sort: Sort)
    requires
        0 <= i < m <= lines.len(),
        0 <= k,
        run(lines, i + 1) is Ok,
        run(lines, i + 1)->Ok_0.objects.len() == k + 1 ==> run(lines, i + 1)->Ok_0.objects[k].sort
            == sort,
        run(lines, i + 1)->Ok_0.objects.len() == k ==> (run(lines, i + 1)->Ok_0.open is Some
            && run(lines, i + 1)->Ok_0.open->0.sort == sort),
        run(lines, i + 1)->Ok_0.objects.len() == k || run(lines, i + 1)->Ok_0.objects.len() == k
            + 1,
        run(lines, m) is Ok,
    ensures
        run(lines, m)->Ok_0.objects.len() > k ==> run(lines, m)->Ok_0.objects[k].sort == sort,
        run(lines, m)->Ok_0.objects.len() == k ==> (run(lines, m)->Ok_0.open is Some && run(
            lines,
            m,
        )->Ok_0.open->0.sort == sort),
        run(lines, m)->Ok_0.objects.len() >= k,
    decreases m - i,
{
    if m > i + 1 {
        if run(lines, m - 1) is Err {
            lemma_run_stops(lines, m - 1, m);
        }
        lemma_sort_kept(lines, i, m - 1, k, sort);
        let prev = run(lines, m - 1)->Ok_0;
        lemma_step_keeps_objects(prev, lines[m - 1]);
        assert(run(lines, m) == step(prev, lines[m - 1]));
        let cur = run(lines, m)->Ok_0;
        if prev.objects.len() > k {
            assert(cur.objects.subrange(0, prev.objects.len() as int)[k] == prev.objects[k]);
        }
    }
}

/// In a document, the object that a header met outside any body declares (with whitespace
/// around the header at most) has the sort that its parenthesized text selects.
pub proof fn law_document_sort(
    path: Seq<char>,
    content: Seq<char>,
    i: int,
    s: Seq<char>,
    rest: Seq<char>,
)
    requires
        0 <= i < split(content, '\n').len(),
        trim(split(content, '\n')[i]) == seq!['('] + s + seq![')'] + rest,
        lacks(s, ')'),
        run(split(content, '\n'), i) is Ok,
        run(split(content, '\n'), i)->Ok_0.open is None,
        parse_document(path, content) is Ok,
    ensures
        parse_document(path, content)->Ok_0.objects.len() > run(
            split(content, '\n'),
            i,
        )->Ok_0.objects.len(),
        parse_document(path, content)->Ok_0.objects[run(
            split(content, '\n'),
            i,
        )->Ok_0.objects.len() as int].sort == sort_of(s),
{
    let lines = split(content, '\n');
    let st = run(lines, i)->Ok_0;
    let k = st.objects.len() as int;
    let line = trim(lines[i]);
    assert(line[0] == '(');
    lemma_first_char_differs(line, marker(Marker::Comment));
    law_header_sort(s, rest, st.objects);
    lemma_document_keeps_objects(path, content, i + 1);
    assert(run(lines, i + 1) == step(st, lines[i]));
    lemma_run_keeps_objects(lines, i + 1, lines.len() as int);
    lemma_sort_kept(lines, i, lines.len() as int, k, sort_of(s));
}

} // verus!
