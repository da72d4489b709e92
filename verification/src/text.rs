//! Text as a sequence of characters: searching, comparing, replacing and
//! splitting.

use vstd::prelude::*;

verus! {

/// `String::push` appends one character to the end of the string.
pub assume_specification[ String::push ](s: &mut String, c: char)
    ensures
        final(s)@ == old(s)@.push(c),
;

/// What the strings of a list hold.
pub open spec fn views(list: Seq<String>) -> Seq<Seq<char>> {
    Seq::new(list.len(), |i: int| list[i]@)
}

/// `a` stands before `b` in the lexicographic order of code points.
pub open spec fn text_before(a: Seq<char>, b: Seq<char>) -> bool
    decreases a.len(),
{
    if b.len() == 0 {
        false
    } else if a.len() == 0 {
        true
    } else {
        ||| (a[0] as int) < (b[0] as int)
        ||| a[0] == b[0] && text_before(a.drop_first(), b.drop_first())
    }
}

/// Each text of the list stands before those that follow it.
pub open spec fn ascending(list: Seq<Seq<char>>) -> bool {
    forall|i: int, j: int| 0 <= i < j < list.len() ==> #[trigger] text_before(list[i], list[j])
}

/// No text stands before itself.
pub proof fn text_before_irreflexive(a: Seq<char>)
    ensures
        !text_before(a, a),
    decreases a.len(),
{
    if a.len() > 0 {
        text_before_irreflexive(a.drop_first());
    }
}

/// What stands before a text stands before those that follow it.
pub proof fn text_before_transitive(a: Seq<char>, b: Seq<char>, c: Seq<char>)
    requires
        text_before(a, b),
        text_before(b, c),
    ensures
        text_before(a, c),
    decreases a.len(),
{
    if a.len() > 0 && a[0] == b[0] && b[0] == c[0] {
        text_before_transitive(a.drop_first(), b.drop_first(), c.drop_first());
    }
}

/// Two ascending lists of the same texts are equal.
pub proof fn ascending_lists_equal(a: Seq<Seq<char>>, b: Seq<Seq<char>>)
    requires
        ascending(a),
        ascending(b),
        a.to_set() == b.to_set(),
    ensures
        a == b,
    decreases a.len(),
{
    if a.len() == 0 {
        if b.len() > 0 {
            assert(b.to_set().contains(b[0]));
        }
        assert(a =~= b);
    } else {
        assert(a.to_set().contains(a[0]));
        let j = choose|j: int| 0 <= j < b.len() && b[j] == a[0];
        assert(b.to_set().contains(b[0]));
        let i = choose|i: int| 0 <= i < a.len() && a[i] == b[0];
        if j > 0 && i > 0 {
            assert(text_before(b[0], b[j]));
            assert(text_before(a[0], a[i]));
            text_before_transitive(a[0], b[0], a[0]);
        }
        text_before_irreflexive(a[0]);
        assert(a[0] == b[0]);
        let x = a.drop_first();
        let y = b.drop_first();
        assert forall|u: Seq<char>| x.to_set().contains(u) implies y.to_set().contains(u) by {
            let k = choose|k: int| 0 <= k < x.len() && x[k] == u;
            assert(text_before(a[0], a[k + 1]));
            assert(a.to_set().contains(a[k + 1]));
            let l = choose|l: int| 0 <= l < b.len() && b[l] == u;
            assert(y[l - 1] == u);
        }
        assert forall|u: Seq<char>| y.to_set().contains(u) implies x.to_set().contains(u) by {
            let k = choose|k: int| 0 <= k < y.len() && y[k] == u;
            assert(text_before(b[0], b[k + 1]));
            assert(b.to_set().contains(b[k + 1]));
            let l = choose|l: int| 0 <= l < a.len() && a[l] == u;
            assert(x[l - 1] == u);
        }
        assert(x.to_set() =~= y.to_set());
        assert forall|p: int, q: int| 0 <= p < q < x.len() implies #[trigger] text_before(
            x[p],
            x[q],
        ) by {
            assert(text_before(a[p + 1], a[q + 1]));
        }
        assert forall|p: int, q: int| 0 <= p < q < y.len() implies #[trigger] text_before(
            y[p],
            y[q],
        ) by {
            assert(text_before(b[p + 1], b[q + 1]));
        }
        ascending_lists_equal(x, y);
        assert(a =~= seq![a[0]] + x);
        assert(b =~= seq![b[0]] + y);
    }
}

/// `pattern` stands in `s` at the index `i`.
pub open spec fn occurs_at(s: Seq<char>, pattern: Seq<char>, i: int) -> bool {
    &&& 0 <= i <= s.len() - pattern.len()
    &&& s.subrange(i, i + pattern.len()) == pattern
}

/// `pattern` stands somewhere in `s`.
pub open spec fn occurs(s: Seq<char>, pattern: Seq<char>) -> bool {
    exists|i: int| occurs_at(s, pattern, i)
}

/// `i` is the first index at which `pattern` stands in `s`.
pub open spec fn first_at(s: Seq<char>, pattern: Seq<char>, i: int) -> bool {
    &&& occurs_at(s, pattern, i)
    &&& forall|j: int| 0 <= j < i ==> !occurs_at(s, pattern, j)
}

/// The first index at which `pattern` stands in `s`.
pub open spec fn first_index(s: Seq<char>, pattern: Seq<char>) -> int {
    choose|i: int| first_at(s, pattern, i)
}

/// There is only one first index.
pub proof fn first_index_is(s: Seq<char>, pattern: Seq<char>, i: int)
    requires
        first_at(s, pattern, i),
    ensures
        first_index(s, pattern) == i,
{
    let k = first_index(s, pattern);
    assert(first_at(s, pattern, k));
    assert(!(k < i) && !(i < k));
}

/// The characters of `s`.
pub fn chars_of(s: &str) -> (r: Vec<char>)
    ensures
        r@ == s@,
{
    let mut r: Vec<char> = Vec::new();
    for c in it: s.chars()
        invariant
            it.seq() == s@,
            r@ == s@.take(it.index()),
    {
        r.push(c);
        assert(s@.take(it.index() + 1) =~= s@.take(it.index()).push(c));
    }
    assert(s@.take(s@.len() as int) =~= s@);
    r
}

/// The string that holds `chars[from..to]`.
pub fn text_of(chars: &Vec<char>, from: usize, to: usize) -> (r: String)
    requires
        from <= to <= chars@.len(),
    ensures
        r@ == chars@.subrange(from as int, to as int),
{
    let mut r = String::new();
    let mut i: usize = from;
    while i < to
        invariant
            from <= i <= to <= chars@.len(),
            r@ == chars@.subrange(from as int, i as int),
        decreases to - i,
    {
        r.push(chars[i]);
        i += 1;
        assert(chars@.subrange(from as int, i as int) =~= chars@.subrange(
            from as int,
            i - 1,
        ).push(chars@[i - 1]));
    }
    r
}

/// Whether `pattern` stands in `s` at the index `i`.
pub fn matches_at(s: &Vec<char>, pattern: &Vec<char>, i: usize) -> (r: bool)
    ensures
        r == occurs_at(s@, pattern@, i as int),
{
    let length: usize = s.len();
    if i > length || pattern.len() > length - i {
        return false;
    }
    let mut j: usize = 0;
    while j < pattern.len()
        invariant
            length == s@.len(),
            i <= length,
            pattern@.len() <= length - i,
            j <= pattern@.len(),
            forall|k: int| 0 <= k < j ==> s@[i + k] == pattern@[k],
        decreases pattern@.len() - j,
    {
        if s[i + j] != pattern[j] {
            assert(s@.subrange(i as int, i + pattern@.len())[j as int] != pattern@[j as int]);
            return false;
        }
        j += 1;
    }
    assert(s@.subrange(i as int, i + pattern@.len()) =~= pattern@);
    true
}

/// The first index at which `pattern` stands in `s`.
pub fn find(s: &Vec<char>, pattern: &Vec<char>) -> (r: Option<usize>)
    ensures
        match r {
            Some(i) => first_at(s@, pattern@, i as int),
            None => !occurs(s@, pattern@),
        },
{
    let length: usize = s.len();
    let mut i: usize = 0;
    while i < length
        invariant
            length == s@.len(),
            i <= length,
            forall|j: int| 0 <= j < i ==> !occurs_at(s@, pattern@, j),
        decreases length - i,
    {
        if matches_at(s, pattern, i) {
            return Some(i);
        }
        i += 1;
    }
    if matches_at(s, pattern, i) {
        Some(i)
    } else {
        None
    }
}

/// The last index at which `c` stands in `s`.
pub fn rfind_char(s: &Vec<char>, c: char) -> (r: Option<usize>)
    ensures
        match r {
            Some(i) => i < s@.len() && s@[i as int] == c && forall|j: int|
                i < j < s@.len() ==> s@[j] != c,
            None => !s@.contains(c),
        },
{
    let length: usize = s.len();
    let mut i: usize = length;
    while i > 0
        invariant
            length == s@.len(),
            i <= length,
            forall|j: int| i <= j < length ==> s@[j] != c,
        decreases i,
    {
        i -= 1;
        if s[i] == c {
            return Some(i);
        }
    }
    None
}

/// Whether `a` and `b` hold the same characters.
pub fn same_text(a: &str, b: &str) -> (r: bool)
    ensures
        r == (a@ == b@),
{
    let a_chars = chars_of(a);
    let b_chars = chars_of(b);
    let r = a_chars.len() == b_chars.len() && matches_at(&a_chars, &b_chars, 0);
    assert(a@.subrange(0, a@.len() as int) =~= a@);
    r
}

/// Whether `s` begins with `prefix`.
pub fn starts_with(s: &str, prefix: &str) -> (r: bool)
    ensures
        r == prefix@.is_prefix_of(s@),
{
    matches_at(&chars_of(s), &chars_of(prefix), 0)
}

/// Whether `pattern` stands somewhere in `s`.
pub fn contains(s: &str, pattern: &str) -> (r: bool)
    ensures
        r == occurs(s@, pattern@),
{
    find(&chars_of(s), &chars_of(pattern)).is_some()
}

/// What follows `prefix` in `s`, if `s` begins with it.
pub fn strip_prefix(s: &str, prefix: &str) -> (r: Option<String>)
    ensures
        match r {
            Some(rest) => s@ == prefix@ + rest@,
            None => !prefix@.is_prefix_of(s@),
        },
{
    let chars = chars_of(s);
    let head = chars_of(prefix);
    if matches_at(&chars, &head, 0) {
        let rest = text_of(&chars, head.len(), chars.len());
        assert(s@ =~= prefix@ + rest@);
        Some(rest)
    } else {
        None
    }
}

/// The number of characters before `suffix` in `s`, if `s` ends with it.
pub fn before_suffix(s: &Vec<char>, suffix: &Vec<char>) -> (r: Option<usize>)
    ensures
        match r {
            Some(n) => n <= s@.len() && s@ == s@.take(n as int) + suffix@,
            None => !suffix@.is_suffix_of(s@),
        },
{
    if suffix.len() > s.len() {
        return None;
    }
    let n: usize = s.len() - suffix.len();
    if matches_at(s, suffix, n) {
        assert(s@ =~= s@.take(n as int) + suffix@);
        Some(n)
    } else {
        None
    }
}

/// `s` with each `from` turned into `to`.
pub open spec fn replaced(s: Seq<char>, from: char, to: char) -> Seq<char> {
    Seq::new(
        s.len(),
        |i: int|
            if s[i] == from {
                to
            } else {
                s[i]
            },
    )
}

/// `s` with each `from` turned into `to`.
pub fn replace_char(s: &str, from: char, to: char) -> (r: String)
    ensures
        r@ == replaced(s@, from, to),
{
    let mut r = String::new();
    for c in it: s.chars()
        invariant
            it.seq() == s@,
            r@ == replaced(s@, from, to).take(it.index()),
    {
        r.push(
            if c == from {
                to
            } else {
                c
            },
        );
        assert(replaced(s@, from, to).take(it.index() + 1) =~= replaced(s@, from, to).take(
            it.index(),
        ).push(replaced(s@, from, to)[it.index()]));
    }
    assert(replaced(s@, from, to).take(s@.len() as int) =~= replaced(s@, from, to));
    r
}

/// `c` as a capital letter, if it is a small letter of the ASCII alphabet.
pub open spec fn capital(c: char) -> char {
    if 'a' <= c && c <= 'z' {
        (c as u32 - 32) as char
    } else {
        c
    }
}

/// `s` with a capital letter in front.
pub open spec fn capitalized(s: Seq<char>) -> Seq<char> {
    if s.len() == 0 {
        s
    } else {
        s.update(0, capital(s[0]))
    }
}

/// `s` with a capital letter in front.
pub fn capitalize(s: &str) -> (r: String)
    ensures
        r@ == capitalized(s@),
{
    let mut chars = chars_of(s);
    if chars.len() > 0 {
        let c = chars[0];
        if 'a' <= c && c <= 'z' {
            chars[0] = (c as u8 - 32) as char;
        }
        assert(chars@ =~= capitalized(s@));
    }
    let r = text_of(&chars, 0, chars.len());
    assert(r@ =~= chars@);
    r
}

/// A pattern stands in a text if the text can be split around it, and only then.
pub proof fn law_occurs_between(s: Seq<char>, pattern: Seq<char>)
    ensures
        occurs(s, pattern) <==> exists|before: Seq<char>, after: Seq<char>| s == #[trigger] (before
            + pattern + after),
{
    if occurs(s, pattern) {
        let i = choose|i: int| occurs_at(s, pattern, i);
        let before = s.take(i);
        let after = s.skip(i + pattern.len());
        assert(s =~= before + s.subrange(i, i + pattern.len()) + after);
    }
    if exists|before: Seq<char>, after: Seq<char>| s == #[trigger] (before + pattern + after) {
        let (before, after) = choose|before: Seq<char>, after: Seq<char>| s == #[trigger] (before
            + pattern + after);
        let i = before.len() as int;
        assert(s.subrange(i, i + pattern.len()) =~= pattern);
        assert(occurs_at(s, pattern, i));
    }
}

/// What stands in a part of a text stands in the text.
pub proof fn law_occurs_in_part(s: Seq<char>, part: Seq<char>, pattern: Seq<char>)
    requires
        occurs(s, part),
        occurs(part, pattern),
    ensures
        occurs(s, pattern),
{
    let i = choose|i: int| occurs_at(s, part, i);
    let j = choose|j: int| occurs_at(part, pattern, j);
    assert(s.subrange(i + j, i + j + pattern.len()) =~= s.subrange(i, i + part.len()).subrange(
        j,
        j + pattern.len(),
    ));
    assert(occurs_at(s, pattern, i + j));
}

/// Replacing a character keeps the length and all other characters.
pub proof fn law_replaced_characters(s: Seq<char>, from: char, to: char)
    ensures
        replaced(s, from, to).len() == s.len(),
        forall|i: int|
            0 <= i < s.len() ==> #[trigger] replaced(s, from, to)[i] == if s[i] == from {
                to
            } else {
                s[i]
            },
{
}

/// Only a small letter in front changes, by the distance between the alphabets of
/// small and of capital letters.
pub proof fn law_capitalized_text(s: Seq<char>)
    ensures
        capitalized(s).len() == s.len(),
        capitalized(s).skip(1) == s.skip(1),
        s.len() > 0 && 'a' <= s[0] && s[0] <= 'z' ==> capitalized(s)[0] as int == s[0] as int - (
        'a' as int - 'A' as int),
        s.len() > 0 && !('a' <= s[0] && s[0] <= 'z') ==> capitalized(s)[0] == s[0],
{
    assert(capitalized(s).skip(1) =~= s.skip(1));
}

/// A list of strings holds the text of each, in the same order.
pub proof fn law_list_texts(list: Seq<String>, i: int)
    requires
        0 <= i < list.len(),
    ensures
        views(list).len() == list.len(),
        views(list)[i] == list[i]@,
{
}

} // verus!
