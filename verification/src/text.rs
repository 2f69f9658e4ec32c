//! Strings as sequences of characters.
use vstd::prelude::*;

verus! {

/// `String::push` of the standard library: one character more at the end.
pub assume_specification[ std::string::String::push ](s: &mut std::string::String, c: char)
    ensures
        final(s)@ == old(s)@.push(c),
;

/// Whether `pattern` stands in `s` at position `i`.
pub open spec fn occurs(s: Seq<char>, pattern: Seq<char>, i: int) -> bool {
    &&& 0 <= i
    &&& i + pattern.len() <= s.len()
    &&& s.subrange(i, i + pattern.len()) == pattern
}

/// Whether `i` is the leftmost place where `pattern` stands in `s`.
pub open spec fn first_occurs(s: Seq<char>, pattern: Seq<char>, i: int) -> bool {
    occurs(s, pattern, i) && forall|j: int| 0 <= j < i ==> !occurs(s, pattern, j)
}

/// Whether `pattern` stands anywhere in `s`.
pub open spec fn includes(s: Seq<char>, pattern: Seq<char>) -> bool {
    exists|i: int| occurs(s, pattern, i)
}

/// The characters of a string.
pub fn to_chars(s: &str) -> (r: Vec<char>)
    ensures
        r@ == s@,
{
    let mut v: Vec<char> = Vec::new();
    for c in it: s.chars()
        invariant
            v@ == s@.take(it.index() as int),
            it.seq() == s@,
    {
        v.push(c);
    }
    v
}

/// The string made of `chars[from..to]`.
pub fn from_chars(chars: &Vec<char>, from: usize, to: usize) -> (r: String)
    requires
        from <= to <= chars@.len(),
    ensures
        r@ == chars@.subrange(from as int, to as int),
{
    let mut s = String::new();
    let mut i: usize = from;
    while i < to
        invariant
            from <= i <= to <= chars@.len(),
            s@ == chars@.subrange(from as int, i as int),
        decreases to - i,
    {
        s.push(chars[i]);
        i += 1;
    }
    s
}

/// Whether two strings hold the same characters.
pub fn same(a: &str, b: &str) -> (r: bool)
    ensures
        r == (a@ == b@),
{
    let mut left = a.chars();
    let mut right = b.chars();
    let ghost mut i: int = 0;
    loop
        invariant
            0 <= i <= a@.len(),
            i <= b@.len(),
            vstd::std_specs::iter::IteratorSpec::obeys_prophetic_iter_laws(&left),
            vstd::std_specs::iter::IteratorSpec::obeys_prophetic_iter_laws(&right),
            vstd::std_specs::iter::IteratorSpec::remaining(&left) == a@.skip(i),
            vstd::std_specs::iter::IteratorSpec::remaining(&right) == b@.skip(i),
            a@.take(i) == b@.take(i),
        decreases a@.len() - i,
    {
        let x = left.next();
        let y = right.next();
        match (x, y) {
            (None, None) => {
                assert(a@ == a@.take(i));
                assert(b@ == b@.take(i));
                return true;
            },
            (Some(c), Some(d)) => {
                assert(a@[i] == c);
                assert(b@[i] == d);
                if c != d {
                    return false;
                }
                proof {
                    assert(a@.take(i + 1) == a@.take(i).push(c));
                    assert(b@.take(i + 1) == b@.take(i).push(d));
                    i = i + 1;
                }
            },
            _ => {
                return false;
            },
        }
    }
}

/// Whether `s` begins with `prefix`.
pub fn starts_with(s: &str, prefix: &str) -> (r: bool)
    ensures
        r == prefix@.is_prefix_of(s@),
{
    let mut left = s.chars();
    let mut right = prefix.chars();
    let ghost mut i: int = 0;
    loop
        invariant
            0 <= i <= s@.len(),
            i <= prefix@.len(),
            vstd::std_specs::iter::IteratorSpec::obeys_prophetic_iter_laws(&left),
            vstd::std_specs::iter::IteratorSpec::obeys_prophetic_iter_laws(&right),
            vstd::std_specs::iter::IteratorSpec::remaining(&left) == s@.skip(i),
            vstd::std_specs::iter::IteratorSpec::remaining(&right) == prefix@.skip(i),
            s@.take(i) == prefix@.take(i),
        decreases prefix@.len() - i,
    {
        let y = right.next();
        match y {
            None => {
                assert(prefix@ == prefix@.take(i));
                return true;
            },
            Some(d) => {
                let x = left.next();
                assert(prefix@[i] == d);
                match x {
                    None => {
                        return false;
                    },
                    Some(c) => {
                        assert(s@[i] == c);
                        if c != d {
                            assert(prefix@.len() <= s@.len() ==> s@.subrange(
                                0,
                                prefix@.len() as int,
                            )[i] == c);
                            return false;
                        }
                        proof {
                            assert(s@.take(i + 1) == s@.take(i).push(c));
                            assert(prefix@.take(i + 1) == prefix@.take(i).push(d));
                            i = i + 1;
                        }
                    },
                }
            },
        }
    }
}

/// Whether `pattern` stands in `s` at `at`.
pub fn occurs_at(s: &Vec<char>, pattern: &Vec<char>, at: usize) -> (r: bool)
    ensures
        r == occurs(s@, pattern@, at as int),
{
    if pattern.len() > s.len() || at > s.len() - pattern.len() {
        return false;
    }
    let mut i: usize = 0;
    while i < pattern.len()
        invariant
            i <= pattern@.len(),
            at + pattern@.len() <= s@.len() <= usize::MAX,
            forall|k: int| 0 <= k < i ==> s@[at + k] == pattern@[k],
        decreases pattern@.len() - i,
    {
        if s[at + i] != pattern[i] {
            assert(s@.subrange(at as int, at + pattern@.len())[i as int] != pattern@[i as int]);
            return false;
        }
        i += 1;
    }
    assert(s@.subrange(at as int, at + pattern@.len()) == pattern@);
    true
}

/// The leftmost place where `pattern` stands in `s`.
pub fn find(s: &Vec<char>, pattern: &Vec<char>) -> (r: Option<usize>)
    ensures
        match r {
            Some(i) => first_occurs(s@, pattern@, i as int),
            None => !includes(s@, pattern@),
        },
{
    let mut i: usize = 0;
    while i <= s.len()
        invariant
            i <= s@.len() + 1,
            forall|j: int| 0 <= j < i ==> !occurs(s@, pattern@, j),
        decreases s@.len() + 1 - i,
    {
        if occurs_at(s, pattern, i) {
            return Some(i);
        }
        if i == s.len() {
            return None;
        }
        i += 1;
    }
    None
}

/// Whether `pattern` stands anywhere in `s`.
pub fn contains(s: &str, pattern: &str) -> (r: bool)
    ensures
        r == includes(s@, pattern@),
{
    match find(&to_chars(s), &to_chars(pattern)) {
        Some(_) => true,
        None => false,
    }
}

/// `s` from its place `n` on.
pub fn skip(s: &str, n: usize) -> (r: String)
    requires
        n <= s@.len(),
    ensures
        r@ == s@.skip(n as int),
{
    let chars = to_chars(s);
    from_chars(&chars, n, chars.len())
}

/// Two strings, one after the other.
pub fn cat2(a: &str, b: &str) -> (r: String)
    ensures
        r@ == a@ + b@,
{
    let mut s = a.to_owned();
    s.append(b);
    s
}

/// Three strings, one after the other.
pub fn cat3(a: &str, b: &str, c: &str) -> (r: String)
    ensures
        r@ == a@ + b@ + c@,
{
    let mut s = cat2(a, b);
    s.append(c);
    s
}

/// Four strings, one after the other.
pub fn cat4(a: &str, b: &str, c: &str, d: &str) -> (r: String)
    ensures
        r@ == a@ + b@ + c@ + d@,
{
    let mut s = cat3(a, b, c);
    s.append(d);
    s
}

/// The view of an optional string.
pub open spec fn opt(s: Option<String>) -> Option<Seq<char>> {
    match s {
        Some(t) => Some(t@),
        None => None,
    }
}

/// The view of an optional borrowed string.
pub open spec fn opt_str(s: Option<&str>) -> Option<Seq<char>> {
    match s {
        Some(t) => Some(t@),
        None => None,
    }
}

/// The UTF-8 bytes of a string.
pub fn to_bytes(s: &str) -> (r: Vec<u8>)
    ensures
        r@ == vstd::utf8::encode_utf8(s@),
{
    let bytes = s.as_bytes();
    let mut r: Vec<u8> = Vec::new();
    let mut i: usize = 0;
    while i < bytes.len()
        invariant
            i <= bytes@.len(),
            r@ == bytes@.take(i as int),
        decreases bytes@.len() - i,
    {
        r.push(bytes[i]);
        assert(bytes@.take(i + 1) =~= bytes@.take(i as int).push(bytes@[i as int]));
        i += 1;
    }
    assert(bytes@.take(i as int) =~= bytes@);
    r
}

/// The views of a list of strings.
pub open spec fn list(s: Seq<String>) -> Seq<Seq<char>> {
    s.map_values(|t: String| t@)
}

/// A copy of an optional string.
pub fn copy_opt(s: &Option<String>) -> (r: Option<String>)
    ensures
        opt(r) == opt(*s),
{
    match s {
        Some(t) => Some(t.clone()),
        None => None,
    }
}

/// An optional borrowed string, owned.
pub fn own_opt(s: Option<&str>) -> (r: Option<String>)
    ensures
        opt(r) == opt_str(s),
{
    match s {
        Some(t) => Some(t.to_owned()),
        None => None,
    }
}

/// A copy of a list of strings.
pub fn copy_list(s: &Vec<String>) -> (r: Vec<String>)
    ensures
        list(r@) == list(s@),
{
    let mut r: Vec<String> = Vec::new();
    let mut i: usize = 0;
    while i < s.len()
        invariant
            i <= s@.len(),
            list(r@) == list(s@.take(i as int)),
        decreases s@.len() - i,
    {
        let ghost before = r@;
        r.push(s[i].clone());
        assert(list(r@) == list(before).push(s@[i as int]@));
        assert(list(s@.take(i + 1)) == list(s@.take(i as int)).push(s@[i as int]@));
        i += 1;
    }
    assert(s@.take(s@.len() as int) == s@);
    r
}

/// The place of `wanted` in a list of strings, the first one.
pub fn position(s: &Vec<String>, wanted: &str) -> (r: Option<usize>)
    ensures
        match r {
            Some(i) => i < s@.len() && s@[i as int]@ == wanted@ && forall|j: int|
                0 <= j < i ==> s@[j]@ != wanted@,
            None => !list(s@).contains(wanted@),
        },
{
    let mut i: usize = 0;
    while i < s.len()
        invariant
            i <= s@.len(),
            forall|j: int| 0 <= j < i ==> s@[j]@ != wanted@,
        decreases s@.len() - i,
    {
        if same(s[i].as_str(), wanted) {
            return Some(i);
        }
        i += 1;
    }
    assert forall|j: int| 0 <= j < list(s@).len() implies list(s@)[j] != wanted@ by {
        assert(list(s@)[j] == s@[j]@);
    }
    None
}

/// Whether a character is white space, as Unicode has it.
pub open spec fn whitespace(c: char) -> bool {
    ||| 0x9 <= c as u32 <= 0xd
    ||| 0x2000 <= c as u32 <= 0x200a
    ||| c == ' ' || c == '\u{85}' || c == '\u{a0}' || c == '\u{1680}' || c == '\u{2028}'
    ||| c == '\u{2029}' || c == '\u{202f}' || c == '\u{205f}' || c == '\u{3000}'
}

/// `char::is_whitespace` of the standard library: whether a character has the Unicode property
/// `White_Space`.
pub assume_specification[ char::is_whitespace ](c: char) -> (r: bool)
    ensures
        r == whitespace(c),
;

/// A text without the white space at its end.
pub open spec fn trimmed(s: Seq<char>) -> Seq<char>
    decreases s.len(),
{
    if s.len() > 0 && whitespace(s.last()) {
        trimmed(s.drop_last())
    } else {
        s
    }
}

/// Takes the white space at the end off.
pub fn trim_end(s: &str) -> (r: String)
    ensures
        r@ == trimmed(s@),
{
    let chars = to_chars(s);
    let mut n: usize = chars.len();
    assert(chars@.take(n as int) =~= chars@);
    while n > 0 && chars[n - 1].is_whitespace()
        invariant
            n <= chars@.len(),
            trimmed(chars@.take(n as int)) == trimmed(chars@),
        decreases n,
    {
        assert(chars@.take(n as int).drop_last() =~= chars@.take(n - 1));
        n -= 1;
    }
    let r = crate::text::from_chars(&chars, 0, n);
    assert(r@ =~= chars@.take(n as int));
    r
}

/// A text without the white space at its start.
pub open spec fn left_trimmed(s: Seq<char>) -> Seq<char>
    decreases s.len(),
{
    if s.len() > 0 && whitespace(s[0]) {
        left_trimmed(s.skip(1))
    } else {
        s
    }
}

/// Takes the white space at both ends off.
pub fn trim(s: &str) -> (r: String)
    ensures
        r@ == trimmed(left_trimmed(s@)),
{
    let chars = to_chars(s);
    let n: usize = chars.len();
    let mut i: usize = 0;
    assert(chars@.skip(0) =~= chars@);
    while i < n && chars[i].is_whitespace()
        invariant
            i <= n == chars@.len(),
            left_trimmed(chars@) == left_trimmed(chars@.skip(i as int)),
        decreases n - i,
    {
        assert(chars@.skip(i as int).skip(1) =~= chars@.skip(i + 1));
        i += 1;
    }
    let rest = from_chars(&chars, i, n);
    assert(rest@ =~= chars@.skip(i as int));
    trim_end(rest.as_str())
}

/// Only white space is taken off the end of a text, and all of it.
pub proof fn white_space_at_the_end_goes(s: Seq<char>)
    ensures
        trimmed(s).len() <= s.len(),
        trimmed(s) == s.take(trimmed(s).len() as int),
        forall|i: int| trimmed(s).len() <= i < s.len() ==> whitespace(#[trigger] s[i]),
        trimmed(s).len() > 0 ==> !whitespace(trimmed(s).last()),
    decreases s.len(),
{
    if s.len() > 0 && whitespace(s.last()) {
        let before = s.drop_last();
        white_space_at_the_end_goes(before);
        assert forall|i: int| trimmed(s).len() <= i < s.len() implies whitespace(
            #[trigger] s[i],
        ) by {
            if i < before.len() {
                assert(before[i] == s[i]);
            }
        }
        assert(before.take(trimmed(s).len() as int) =~= s.take(trimmed(s).len() as int));
    } else {
        assert(s.take(s.len() as int) =~= s);
    }
}

/// Only white space is taken off the beginning of a text, and all of it.
pub proof fn white_space_at_the_beginning_goes(s: Seq<char>)
    ensures
        left_trimmed(s).len() <= s.len(),
        left_trimmed(s) == s.skip(s.len() - left_trimmed(s).len()),
        forall|i: int| 0 <= i < s.len() - left_trimmed(s).len() ==> whitespace(#[trigger] s[i]),
        left_trimmed(s).len() > 0 ==> !whitespace(left_trimmed(s)[0]),
    decreases s.len(),
{
    if s.len() > 0 && whitespace(s[0]) {
        let rest = s.skip(1);
        white_space_at_the_beginning_goes(rest);
        let n = s.len() - left_trimmed(s).len();
        assert forall|i: int| 0 <= i < n implies whitespace(#[trigger] s[i]) by {
            if i > 0 {
                assert(rest[i - 1] == s[i]);
            }
        }
        assert(rest.skip(n - 1) =~= s.skip(n));
    } else {
        assert(s.skip(0) =~= s);
    }
}

} // verus!
