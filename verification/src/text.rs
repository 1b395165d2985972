//! Text as a sequence of characters: comparison, slicing, and decimal numerals.
use vstd::prelude::*;

verus! {

/// `String::push` appends one character to the end.
pub assume_specification[ String::push ](s: &mut String, c: char)
    ensures
        final(s)@ == old(s)@.push(c),
;

/// The characters of `s`, in order.
pub fn chars_of(s: &str) -> (r: Vec<char>)
    ensures
        r@ == s@,
{
    let n: usize = s.unicode_len();
    let mut out: Vec<char> = Vec::new();
    let mut it = s.chars();
    let mut i: usize = 0;
    while i < n
        invariant
            n == s@.len(),
            i <= n,
            out@ == s@.take(i as int),
            vstd::std_specs::iter::IteratorSpec::remaining(&it) == s@.skip(i as int),
        decreases n - i,
    {
        broadcast use vstd::string::group_string_axioms;
        let ghost before = it;
        let c: Option<char> = it.next();
        match c {
            Some(ch) => {
                out.push(ch);
                assert(out@ =~= s@.take(i as int + 1));
                assert(s@.skip(i as int).drop_first() =~= s@.skip(i as int + 1));
            },
            None => {
                assert(false);
            },
        }
        i = i + 1;
    }
    assert(s@.take(n as int) =~= s@);
    out
}

/// The text made of `chars[from..to]`.
pub fn text_of(chars: &Vec<char>, from: usize, to: usize) -> (r: String)
    requires
        from <= to <= chars@.len(),
    ensures
        r@ == chars@.subrange(from as int, to as int),
{
    let mut out = String::new();
    let mut i: usize = from;
    while i < to
        invariant
            from <= i <= to <= chars@.len(),
            out@ == chars@.subrange(from as int, i as int),
        decreases to - i,
    {
        out.push(chars[i]);
        assert(out@ =~= chars@.subrange(from as int, i as int + 1));
        i = i + 1;
    }
    out
}

/// Whether the two texts are the same.
pub fn same(a: &str, b: &str) -> (r: bool)
    ensures
        r == (a@ == b@),
{
    let x = chars_of(a);
    let y = chars_of(b);
    if x.len() != y.len() {
        return false;
    }
    let mut i: usize = 0;
    while i < x.len()
        invariant
            i <= x.len(),
            x.len() == y.len(),
            x@ == a@,
            y@ == b@,
            forall|k: int| 0 <= k < i ==> x@[k] == y@[k],
        decreases x.len() - i,
    {
        if x[i] != y[i] {
            return false;
        }
        i = i + 1;
    }
    assert(a@ =~= b@);
    true
}

/// Code point order: `a` comes strictly before `b`.
pub open spec fn before(a: Seq<char>, b: Seq<char>) -> bool
    decreases b.len(),
{
    if b.len() == 0 {
        false
    } else if a.len() == 0 {
        true
    } else if a[0] != b[0] {
        a[0] < b[0]
    } else {
        before(a.drop_first(), b.drop_first())
    }
}

/// The characters of `a` and `b` agree up to `i`, so the order is decided by what follows.
proof fn lemma_before_skip(a: Seq<char>, b: Seq<char>, i: int)
    requires
        0 <= i <= a.len(),
        i <= b.len(),
        forall|k: int| 0 <= k < i ==> a[k] == b[k],
    ensures
        before(a, b) == before(a.skip(i), b.skip(i)),
    decreases i,
{
    if i > 0 {
        lemma_before_skip(a, b, i - 1);
        assert(a.skip(i - 1).drop_first() =~= a.skip(i));
        assert(b.skip(i - 1).drop_first() =~= b.skip(i));
        assert(a.skip(i - 1)[0] == a[i - 1]);
        assert(b.skip(i - 1)[0] == b[i - 1]);
    } else {
        assert(a.skip(0) =~= a);
        assert(b.skip(0) =~= b);
    }
}

/// Whether `a` comes strictly before `b` in code point order.
pub fn is_before(a: &str, b: &str) -> (r: bool)
    ensures
        r == before(a@, b@),
{
    let x = chars_of(a);
    let y = chars_of(b);
    let mut i: usize = 0;
    while i < x.len() && i < y.len()
        invariant
            i <= x.len(),
            i <= y.len(),
            x@ == a@,
            y@ == b@,
            forall|k: int| 0 <= k < i ==> x@[k] == y@[k],
        decreases x.len() - i,
    {
        if x[i] != y[i] {
            proof {
                lemma_before_skip(a@, b@, i as int);
            }
            return x[i] < y[i];
        }
        i = i + 1;
    }
    proof {
        lemma_before_skip(a@, b@, i as int);
    }
    i < y.len()
}

/// Nothing comes before itself.
pub proof fn lemma_before_irreflexive(a: Seq<char>)
    ensures
        !before(a, a),
    decreases a.len(),
{
    if a.len() > 0 {
        lemma_before_irreflexive(a.drop_first());
    }
}

/// The order is transitive.
pub proof fn lemma_before_transitive(a: Seq<char>, b: Seq<char>, c: Seq<char>)
    requires
        before(a, b),
        before(b, c),
    ensures
        before(a, c),
    decreases c.len(),
{
    if a.len() > 0 && a[0] == b[0] && b[0] == c[0] {
        lemma_before_transitive(a.drop_first(), b.drop_first(), c.drop_first());
    }
}

/// Of two different texts one comes before the other.
pub proof fn lemma_before_total(a: Seq<char>, b: Seq<char>)
    ensures
        before(a, b) || before(b, a) || a == b,
    decreases a.len(),
{
    if a.len() > 0 && b.len() > 0 && a[0] == b[0] {
        lemma_before_total(a.drop_first(), b.drop_first());
        if a.drop_first() == b.drop_first() {
            assert(a =~= seq![a[0]] + a.drop_first());
            assert(b =~= seq![b[0]] + b.drop_first());
        }
    } else if a.len() == 0 && b.len() == 0 {
        assert(a =~= b);
    }
}

/// Whether `s` starts with `prefix`.
pub open spec fn has_prefix(s: Seq<char>, prefix: Seq<char>) -> bool {
    prefix.len() <= s.len() && s.take(prefix.len() as int) == prefix
}

/// What follows `prefix` in `s`, where `s` starts with it.
pub open spec fn after_prefix(s: Seq<char>, prefix: Seq<char>) -> Option<Seq<char>> {
    if has_prefix(s, prefix) {
        Some(s.skip(prefix.len() as int))
    } else {
        None
    }
}

/// Strips `prefix` off `s`.
pub fn strip_prefix(s: &str, prefix: &str) -> (r: Option<String>)
    ensures
        (match r {
            Some(rest) => after_prefix(s@, prefix@) == Some(rest@),
            None => after_prefix(s@, prefix@) is None,
        }),
{
    let x = chars_of(s);
    let p = chars_of(prefix);
    if p.len() > x.len() {
        return None;
    }
    let mut i: usize = 0;
    while i < p.len()
        invariant
            i <= p.len() <= x.len(),
            x@ == s@,
            p@ == prefix@,
            forall|k: int| 0 <= k < i ==> x@[k] == p@[k],
        decreases p.len() - i,
    {
        if x[i] != p[i] {
            assert(s@.take(prefix@.len() as int)[i as int] != prefix@[i as int]);
            return None;
        }
        i = i + 1;
    }
    assert(s@.take(prefix@.len() as int) =~= prefix@);
    assert(s@.skip(prefix@.len() as int) =~= x@.subrange(p@.len() as int, x@.len() as int));
    Some(text_of(&x, p.len(), x.len()))
}

/// Whether `s` starts with `prefix`.
pub fn starts_with(s: &str, prefix: &str) -> (r: bool)
    ensures
        r == has_prefix(s@, prefix@),
{
    strip_prefix(s, prefix).is_some()
}

/// Whether `s` ends with `suffix`.
pub open spec fn has_suffix(s: Seq<char>, suffix: Seq<char>) -> bool {
    suffix.len() <= s.len() && s.skip(s.len() - suffix.len()) == suffix
}

/// Whether `s` ends with `suffix`.
pub fn ends_with(s: &str, suffix: &str) -> (r: bool)
    ensures
        r == has_suffix(s@, suffix@),
{
    let x = chars_of(s);
    let p = chars_of(suffix);
    if p.len() > x.len() {
        return false;
    }
    let from: usize = x.len() - p.len();
    let mut i: usize = 0;
    while i < p.len()
        invariant
            i <= p.len() <= x.len(),
            from == x.len() - p.len(),
            x@ == s@,
            p@ == suffix@,
            forall|k: int| 0 <= k < i ==> x@[from + k] == p@[k],
        decreases p.len() - i,
    {
        if x[from + i] != p[i] {
            assert(s@.skip(from as int)[i as int] != suffix@[i as int]);
            return false;
        }
        i = i + 1;
    }
    assert(s@.skip(from as int) =~= suffix@);
    true
}

/// What stands between `prefix` and `suffix`, where `s` starts with the one and ends with the other;
/// nothing where they overlap.
pub open spec fn inner(s: Seq<char>, prefix: Seq<char>, suffix: Seq<char>) -> Option<Seq<char>> {
    if has_prefix(s, prefix) && has_suffix(s, suffix) {
        if prefix.len() + suffix.len() <= s.len() {
            Some(s.subrange(prefix.len() as int, s.len() - suffix.len()))
        } else {
            Some(Seq::empty())
        }
    } else {
        None
    }
}

/// What stands between `prefix` and `suffix`.
pub fn strip_both(s: &str, prefix: &str, suffix: &str) -> (r: Option<String>)
    ensures
        opt(r) == inner(s@, prefix@, suffix@),
{
    if !starts_with(s, prefix) || !ends_with(s, suffix) {
        return None;
    }
    let x = chars_of(s);
    let from: usize = prefix.unicode_len();
    let behind: usize = suffix.unicode_len();
    let to: usize = x.len() - behind;
    if from <= to {
        Some(text_of(&x, from, to))
    } else {
        Some(String::new())
    }
}

/// Whether `s` starts with `c`.
pub fn starts_with_char(s: &str, c: char) -> (r: bool)
    ensures
        r == (s@.len() > 0 && s@[0] == c),
{
    s.unicode_len() > 0 && s.get_char(0) == c
}

/// The parts of `s` around the first `c`, where there is one.
pub open spec fn split_at_char(s: Seq<char>, c: char) -> Option<(Seq<char>, Seq<char>)>
    decreases s.len(),
{
    if s.len() == 0 {
        None
    } else if s[0] == c {
        Some((Seq::empty(), s.drop_first()))
    } else {
        match split_at_char(s.drop_first(), c) {
            Some((head, tail)) => Some((seq![s[0]] + head, tail)),
            None => None,
        }
    }
}

/// The first `c` of `s` stands at `i`.
pub proof fn lemma_split_at(s: Seq<char>, c: char, i: int)
    requires
        0 <= i < s.len(),
        s[i] == c,
        forall|k: int| 0 <= k < i ==> s[k] != c,
    ensures
        split_at_char(s, c) == Some((s.take(i), s.skip(i + 1))),
    decreases s.len(),
{
    if i == 0 {
        assert(s.take(0) =~= Seq::<char>::empty());
        assert(s.skip(1) =~= s.drop_first());
    } else {
        assert forall|k: int| 0 <= k < i - 1 implies s.drop_first()[k] != c by {
            assert(s.drop_first()[k] == s[k + 1]);
        }
        lemma_split_at(s.drop_first(), c, i - 1);
        assert(seq![s[0]] + s.drop_first().take(i - 1) =~= s.take(i));
        assert(s.drop_first().skip(i) =~= s.skip(i + 1));
    }
}

/// Without a `c` there is nothing to split at.
pub proof fn lemma_split_none(s: Seq<char>, c: char)
    requires
        forall|k: int| 0 <= k < s.len() ==> s[k] != c,
    ensures
        split_at_char(s, c) is None,
    decreases s.len(),
{
    if s.len() > 0 {
        assert forall|k: int| 0 <= k < s.drop_first().len() implies s.drop_first()[k] != c by {
            assert(s.drop_first()[k] == s[k + 1]);
        }
        lemma_split_none(s.drop_first(), c);
    }
}

/// The parts around a character are as long as the text without it.
pub proof fn lemma_split_len(s: Seq<char>, c: char)
    ensures
        split_at_char(s, c) matches Some((a, b)) ==> a.len() + b.len() + 1 == s.len(),
    decreases s.len(),
{
    if s.len() > 0 && s[0] != c {
        lemma_split_len(s.drop_first(), c);
    }
}

/// Splits `s` at its first `c`.
pub fn split_once(s: &str, c: char) -> (r: Option<(String, String)>)
    ensures
        (match r {
            Some((head, tail)) => split_at_char(s@, c) == Some((head@, tail@)),
            None => split_at_char(s@, c) is None,
        }),
{
    let x = chars_of(s);
    let mut i: usize = 0;
    while i < x.len()
        invariant
            i <= x.len(),
            x@ == s@,
            forall|k: int| 0 <= k < i ==> x@[k] != c,
        decreases x.len() - i,
    {
        if x[i] == c {
            proof {
                lemma_split_at(s@, c, i as int);
                assert(s@.take(i as int) =~= x@.subrange(0, i as int));
                assert(s@.skip(i + 1) =~= x@.subrange(i + 1, x@.len() as int));
            }
            return Some((text_of(&x, 0, i), text_of(&x, i + 1, x.len())));
        }
        i = i + 1;
    }
    proof {
        lemma_split_none(s@, c);
    }
    None
}

/// The characters with Unicode's `White_Space` property.
pub open spec fn is_white(c: char) -> bool {
    ||| 0x9 <= c as u32 <= 0xd
    ||| c as u32 == 0x20
    ||| c as u32 == 0x85
    ||| c as u32 == 0xa0
    ||| c as u32 == 0x1680
    ||| 0x2000 <= c as u32 <= 0x200a
    ||| c as u32 == 0x2028
    ||| c as u32 == 0x2029
    ||| c as u32 == 0x202f
    ||| c as u32 == 0x205f
    ||| c as u32 == 0x3000
}

/// Whether `c` is white space.
pub fn white(c: char) -> (r: bool)
    ensures
        r == is_white(c),
{
    let u: u32 = c as u32;
    (0x9 <= u && u <= 0xd) || u == 0x20 || u == 0x85 || u == 0xa0 || u == 0x1680 || (0x2000 <= u
        && u <= 0x200a) || u == 0x2028 || u == 0x2029 || u == 0x202f || u == 0x205f || u == 0x3000
}

/// `s` without white space at its start.
pub open spec fn trimmed_start(s: Seq<char>) -> Seq<char>
    decreases s.len(),
{
    if s.len() > 0 && is_white(s[0]) {
        trimmed_start(s.drop_first())
    } else {
        s
    }
}

/// `s` without white space at its end.
pub open spec fn trimmed_end(s: Seq<char>) -> Seq<char>
    decreases s.len(),
{
    if s.len() > 0 && is_white(s.last()) {
        trimmed_end(s.drop_last())
    } else {
        s
    }
}

/// `s` without white space at either end.
pub open spec fn trimmed(s: Seq<char>) -> Seq<char> {
    trimmed_end(trimmed_start(s))
}

/// `s` without white space at either end.
pub fn trim(s: &str) -> (r: String)
    ensures
        r@ == trimmed(s@),
{
    let x = chars_of(s);
    let mut from: usize = 0;
    assert(s@.skip(0) =~= s@);
    while from < x.len() && white(x[from])
        invariant
            from <= x.len(),
            x@ == s@,
            trimmed_start(s@) == trimmed_start(s@.skip(from as int)),
        decreases x.len() - from,
    {
        assert(s@.skip(from as int).drop_first() =~= s@.skip(from as int + 1));
        from = from + 1;
    }
    assert(trimmed_start(s@) == s@.skip(from as int));
    let mut to: usize = x.len();
    assert(s@.skip(from as int) =~= s@.subrange(from as int, to as int));
    while from < to && white(x[to - 1])
        invariant
            from <= to <= x.len(),
            x@ == s@,
            trimmed(s@) == trimmed_end(s@.subrange(from as int, to as int)),
        decreases to - from,
    {
        assert(s@.subrange(from as int, to as int).drop_last() =~= s@.subrange(
            from as int,
            to - 1,
        ));
        to = to - 1;
    }
    assert(trimmed(s@) == s@.subrange(from as int, to as int));
    text_of(&x, from, to)
}

/// The concatenation of two texts.
pub fn join(a: &str, b: &str) -> (r: String)
    ensures
        r@ == a@ + b@,
{
    let mut out = a.to_owned();
    out.append(b);
    out
}

/// The concatenation of three texts.
pub fn join3(a: &str, b: &str, c: &str) -> (r: String)
    ensures
        r@ == a@ + b@ + c@,
{
    let mut out = join(a, b);
    out.append(c);
    out
}

/// The characters of an optional text.
pub open spec fn opt(s: Option<String>) -> Option<Seq<char>> {
    match s {
        Some(t) => Some(t@),
        None => None,
    }
}

/// The characters of an optional borrowed text.
pub open spec fn opt_str(s: Option<&str>) -> Option<Seq<char>> {
    match s {
        Some(t) => Some(t@),
        None => None,
    }
}

/// The characters of each text.
pub open spec fn all(s: Seq<String>) -> Seq<Seq<char>> {
    s.map_values(|t: String| t@)
}

/// A copy of an optional text.
pub fn copy_opt(s: &Option<String>) -> (r: Option<String>)
    ensures
        opt(r) == opt(*s),
{
    match s {
        Some(t) => Some(t.clone()),
        None => None,
    }
}

/// An owned copy of an optional text.
pub fn own_opt(s: Option<&str>) -> (r: Option<String>)
    ensures
        opt(r) == opt_str(s),
{
    match s {
        Some(t) => Some(t.to_owned()),
        None => None,
    }
}

/// An optional text, borrowed.
pub fn borrow_opt(s: &Option<String>) -> (r: Option<&str>)
    ensures
        opt_str(r) == opt(*s),
{
    match s {
        Some(t) => Some(t.as_str()),
        None => None,
    }
}

/// A copy of a list of texts.
pub fn copy_all(s: &Vec<String>) -> (r: Vec<String>)
    ensures
        all(r@) == all(s@),
{
    let mut out: Vec<String> = Vec::new();
    let mut i: usize = 0;
    while i < s.len()
        invariant
            i <= s.len(),
            out@.len() == i,
            forall|k: int| 0 <= k < i ==> (#[trigger] out@[k])@ == s@[k]@,
        decreases s.len() - i,
    {
        out.push(s[i].clone());
        i = i + 1;
    }
    assert(all(out@) =~= all(s@));
    out
}

/// The texts with one more, which goes in front of the first one that comes after it.
pub open spec fn insert_text(s: Seq<Seq<char>>, t: Seq<char>) -> Seq<Seq<char>>
    decreases s.len(),
{
    if s.len() > 0 && before(t, s.last()) {
        insert_text(s.drop_last(), t).push(s.last())
    } else {
        s.push(t)
    }
}

/// The texts in code point order.
pub open spec fn sorted(s: Seq<Seq<char>>) -> Seq<Seq<char>>
    decreases s.len(),
{
    if s.len() == 0 {
        s
    } else {
        insert_text(sorted(s.drop_last()), s.last())
    }
}

/// Puts the texts in code point order.
pub fn sort(s: &Vec<String>) -> (r: Vec<String>)
    ensures
        all(r@) == sorted(all(s@)),
{
    let ghost texts = all(s@);
    let mut out: Vec<String> = Vec::new();
    let mut i: usize = 0;
    assert(all(out@) =~= texts.take(0));
    while i < s.len()
        invariant
            i <= s.len(),
            texts == all(s@),
            all(out@) == sorted(texts.take(i as int)),
        decreases s.len() - i,
    {
        let t: String = s[i].clone();
        let ghost listed = all(out@);
        let ghost before_out = out@;
        let mut at: usize = out.len();
        assert(listed.take(at as int) =~= listed);
        assert(insert_text(listed, t@) =~= insert_text(listed.take(at as int), t@) + listed.skip(
            at as int,
        ));
        while at > 0 && is_before(t.as_str(), out[at - 1].as_str())
            invariant
                at <= out.len(),
                out@ == before_out,
                listed == all(before_out),
                insert_text(listed, t@) == insert_text(listed.take(at as int), t@) + listed.skip(
                    at as int,
                ),
            decreases at,
        {
            assert(listed[at - 1] == out@[at - 1]@);
            assert(listed.take(at as int).drop_last() =~= listed.take(at - 1));
            assert(insert_text(listed.take(at - 1), t@).push(listed[at - 1]) + listed.skip(at as int)
                =~= insert_text(listed.take(at - 1), t@) + listed.skip(at - 1));
            at = at - 1;
        }
        if at > 0 {
            assert(listed[at - 1] == out@[at - 1]@);
            assert(listed.take(at as int).last() == listed[at - 1]);
        }
        assert(insert_text(listed.take(at as int), t@) == listed.take(at as int).push(t@));
        out.insert(at, t);
        assert(all(out@) =~= listed.take(at as int).push(t@) + listed.skip(at as int));
        assert(texts.take(i + 1).drop_last() =~= texts.take(i as int));
        assert(texts.take(i + 1).last() == t@);
        i = i + 1;
    }
    assert(texts.take(i as int) =~= texts);
    out
}

/// No text stands behind one that comes after it.
pub open spec fn in_text_order(s: Seq<Seq<char>>) -> bool {
    forall|i: int, j: int| 0 <= i < j < s.len() ==> !before(#[trigger] s[j], #[trigger] s[i])
}

proof fn lemma_insert_text(s: Seq<Seq<char>>, t: Seq<char>)
    requires
        in_text_order(s),
    ensures
        in_text_order(insert_text(s, t)),
        insert_text(s, t).to_multiset() == s.to_multiset().insert(t),
        forall|i: int|
            0 <= i < insert_text(s, t).len() ==> #[trigger] insert_text(s, t)[i] == t || s.contains(
                insert_text(s, t)[i],
            ),
    decreases s.len(),
{
    broadcast use vstd::seq_lib::group_to_multiset_ensures;

    let out = insert_text(s, t);
    if s.len() > 0 && before(t, s.last()) {
        let rest = s.drop_last();
        let last = s.last();
        assert(in_text_order(rest)) by {
            assert forall|i: int, j: int| 0 <= i < j < rest.len() implies !before(
                #[trigger] rest[j],
                #[trigger] rest[i],
            ) by {
                assert(rest[i] == s[i] && rest[j] == s[j]);
            }
        }
        lemma_insert_text(rest, t);
        let inner = insert_text(rest, t);
        assert(s =~= rest.push(last));
        assert forall|i: int| 0 <= i < out.len() implies #[trigger] out[i] == t || s.contains(out[i]) by {
            if i < inner.len() {
                assert(out[i] == inner[i]);
                if inner[i] != t {
                    let k = choose|k: int| 0 <= k < rest.len() && rest[k] == inner[i];
                    assert(s[k] == out[i]);
                }
            } else {
                assert(out[i] == s[s.len() - 1]);
            }
        }
        assert forall|i: int, j: int| 0 <= i < j < out.len() implies !before(
            #[trigger] out[j],
            #[trigger] out[i],
        ) by {
            assert(out[i] == inner[i]);
            if j < inner.len() {
                assert(out[j] == inner[j]);
            } else if inner[i] == t {
                if before(last, t) {
                    lemma_before_transitive(t, last, t);
                    lemma_before_irreflexive(t);
                }
            } else {
                let k = choose|k: int| 0 <= k < rest.len() && rest[k] == inner[i];
                assert(s[k] == out[i]);
                assert(!before(s[s.len() - 1], s[k]));
            }
        }
    } else {
        assert forall|i: int| 0 <= i < out.len() implies #[trigger] out[i] == t || s.contains(out[i]) by {
            if i < s.len() {
                assert(out[i] == s[i]);
            }
        }
        assert forall|i: int, j: int| 0 <= i < j < out.len() implies !before(
            #[trigger] out[j],
            #[trigger] out[i],
        ) by {
            assert(out[i] == s[i]);
            if j < s.len() {
                assert(out[j] == s[j]);
            } else if before(t, s[i]) {
                let z = s[s.len() - 1];
                lemma_before_total(s[i], z);
                if i < s.len() - 1 {
                    assert(!before(z, s[i]));
                }
                if s[i] != z {
                    lemma_before_transitive(t, s[i], z);
                }
            }
        }
    }
}

/// Sorting keeps the texts, and puts none behind one that comes after it.
pub proof fn law_sorted_in_code_point_order(s: Seq<Seq<char>>)
    ensures
        in_text_order(sorted(s)),
        sorted(s).to_multiset() == s.to_multiset(),
    decreases s.len(),
{
    broadcast use vstd::seq_lib::group_to_multiset_ensures;

    if s.len() > 0 {
        law_sorted_in_code_point_order(s.drop_last());
        lemma_insert_text(sorted(s.drop_last()), s.last());
        assert(s =~= s.drop_last().push(s.last()));
    }
}

/// Of two texts the one comes first that has the lower character where they first differ, or is the
/// start of the other.
pub proof fn law_code_point_order(common: Seq<char>, a: Seq<char>, b: Seq<char>)
    ensures
        before(common + a, common + b) <==> before(a, b),
        a.len() == 0 ==> (before(a, b) <==> b.len() > 0),
        a.len() > 0 && b.len() > 0 && a[0] != b[0] ==> (before(a, b) <==> a[0] < b[0]),
        b.len() == 0 ==> !before(a, b),
    decreases common.len(),
{
    if common.len() == 0 {
        assert(common + a =~= a);
        assert(common + b =~= b);
    } else {
        let rest = common.drop_first();
        law_code_point_order(rest, a, b);
        assert((common + a).drop_first() =~= rest + a);
        assert((common + b).drop_first() =~= rest + b);
    }
}

/// Trimming takes the white space off both ends, and nothing else.
pub proof fn law_trimming_takes_white_space_off(head: Seq<char>, s: Seq<char>, tail: Seq<char>)
    requires
        forall|i: int| 0 <= i < head.len() ==> is_white(#[trigger] head[i]),
        forall|i: int| 0 <= i < tail.len() ==> is_white(#[trigger] tail[i]),
        s.len() > 0 ==> !is_white(s[0]) && !is_white(s.last()),
    ensures
        trimmed(head + s + tail) == s,
    decreases head.len() + tail.len(),
{
    let all = head + s + tail;
    if head.len() > 0 {
        let rest = head.drop_first();
        assert forall|i: int| 0 <= i < rest.len() implies is_white(#[trigger] rest[i]) by {
            assert(rest[i] == head[i + 1]);
        }
        law_trimming_takes_white_space_off(rest, s, tail);
        assert(all[0] == head[0]);
        assert(all.drop_first() =~= rest + s + tail);
    } else if s.len() == 0 {
        assert(all =~= tail);
        if tail.len() > 0 {
            let rest = tail.drop_first();
            assert forall|i: int| 0 <= i < rest.len() implies is_white(#[trigger] rest[i]) by {
                assert(rest[i] == tail[i + 1]);
            }
            law_trimming_takes_white_space_off(head, s, rest);
            assert(head + s + rest =~= rest);
            assert(all.drop_first() =~= rest);
            assert(is_white(tail[0]));
        }
        assert(trimmed(all) =~= s);
    } else {
        assert(all[0] == s[0]);
        assert(trimmed_start(all) == all);
        lemma_trimmed_end(s, tail);
        assert(all =~= s + tail);
    }
}

proof fn lemma_trimmed_end(s: Seq<char>, tail: Seq<char>)
    requires
        s.len() > 0,
        !is_white(s.last()),
        forall|i: int| 0 <= i < tail.len() ==> is_white(#[trigger] tail[i]),
    ensures
        trimmed_end(s + tail) == s,
    decreases tail.len(),
{
    let all = s + tail;
    if tail.len() > 0 {
        let rest = tail.drop_last();
        assert forall|i: int| 0 <= i < rest.len() implies is_white(#[trigger] rest[i]) by {
            assert(rest[i] == tail[i]);
        }
        lemma_trimmed_end(s, rest);
        assert(all.last() == tail[tail.len() - 1]);
        assert(all.drop_last() =~= s + rest);
    } else {
        assert(all =~= s);
    }
}

} // verus!
