//! Text helpers over the character view of strings.

use vstd::prelude::*;

verus! {

/// The texts of a list of strings.
pub open spec fn texts(v: Seq<String>) -> Seq<Seq<char>> {
    v.map_values(|s: String| s@)
}

/// The text of an optional string.
pub open spec fn optional_text(s: Option<String>) -> Option<Seq<char>> {
    match s {
        Some(t) => Some(t@),
        None => None,
    }
}

/// `s` without the run of `c` at its end.
pub open spec fn strip_trailing(s: Seq<char>, c: char) -> Seq<char>
    decreases s.len(),
{
    if s.len() > 0 && s.last() == c {
        strip_trailing(s.drop_last(), c)
    } else {
        s
    }
}

/// Index of the first `c` in `s`, or the length of `s` when it holds none.
pub open spec fn first_index(s: Seq<char>, c: char) -> int
    decreases s.len(),
{
    if s.len() == 0 || s[0] == c {
        0
    } else {
        1 + first_index(s.drop_first(), c)
    }
}

/// The part of `s` before its first `c`; all of `s` when it holds none.
pub open spec fn before_first(s: Seq<char>, c: char) -> Seq<char> {
    s.take(first_index(s, c))
}

/// Whether `c` is white space: one of the characters to which Unicode
/// gives the property `White_Space`.
pub open spec fn is_whitespace(c: char) -> bool {
    let u = c as u32;
    ||| 0x09 <= u <= 0x0D
    ||| u == 0x20
    ||| u == 0x85
    ||| u == 0xA0
    ||| u == 0x1680
    ||| 0x2000 <= u <= 0x200A
    ||| u == 0x2028
    ||| u == 0x2029
    ||| u == 0x202F
    ||| u == 0x205F
    ||| u == 0x3000
}

/// Whether `c` is a hexadecimal digit, in either case.
pub open spec fn is_hex_digit(c: char) -> bool {
    let u = c as u32;
    ||| 0x30 <= u <= 0x39
    ||| 0x41 <= u <= 0x46
    ||| 0x61 <= u <= 0x66
}

/// Whether `i` is one of the four places where a UUID in canonical form
/// has a hyphen.
pub open spec fn is_hyphen_place(i: int) -> bool {
    i == 8 || i == 13 || i == 18 || i == 23
}

/// Whether `s` is a UUID in canonical form: 36 characters, hexadecimal
/// digits in groups of 8, 4, 4, 4 and 12 with a hyphen between the groups.
pub open spec fn is_canonical_uuid(s: Seq<char>) -> bool {
    &&& s.len() == 36
    &&& forall|i: int|
        0 <= i < 36 ==> if is_hyphen_place(i) {
            #[trigger] s[i] == '-'
        } else {
            is_hex_digit(s[i])
        }
}

/// `s` without the white space at its start.
pub open spec fn trim_start(s: Seq<char>) -> Seq<char>
    decreases s.len(),
{
    if s.len() > 0 && is_whitespace(s[0]) {
        trim_start(s.drop_first())
    } else {
        s
    }
}

/// `s` without the white space at its end.
pub open spec fn trim_end(s: Seq<char>) -> Seq<char>
    decreases s.len(),
{
    if s.len() > 0 && is_whitespace(s.last()) {
        trim_end(s.drop_last())
    } else {
        s
    }
}

/// `s` without the white space at either end.
pub open spec fn trimmed(s: Seq<char>) -> Seq<char> {
    trim_end(trim_start(s))
}

/// The pieces of `s` between its occurrences of `c`, in order. There is
/// always one piece more than there are occurrences.
pub open spec fn split_on(s: Seq<char>, c: char) -> Seq<Seq<char>>
    decreases s.len(),
{
    let i = first_index(s, c);
    if 0 <= i < s.len() {
        seq![s.take(i)] + split_on(s.skip(i + 1), c)
    } else {
        seq![s]
    }
}

/// Whether `a` comes before `b`, or equals it, in the order of a dictionary
/// whose alphabet is the code points.
pub open spec fn text_le(a: Seq<char>, b: Seq<char>) -> bool
    decreases a.len(),
{
    if a.len() == 0 {
        true
    } else if b.len() == 0 {
        false
    } else if a[0] != b[0] {
        (a[0] as u32) < (b[0] as u32)
    } else {
        text_le(a.drop_first(), b.drop_first())
    }
}

/// Of two texts, one is ordered with the other.
pub proof fn lemma_text_le_total(a: Seq<char>, b: Seq<char>)
    ensures
        text_le(a, b) || text_le(b, a),
    decreases a.len(),
{
    if a.len() > 0 && b.len() > 0 {
        if a[0] == b[0] {
            lemma_text_le_total(a.drop_first(), b.drop_first());
        } else {
            assert(a[0] as u32 != b[0] as u32) by {
                vstd::utf8::char_u32_cast(a[0], a[0] as u32);
                vstd::utf8::char_u32_cast(b[0], b[0] as u32);
            }
        }
    }
}

/// The order passes along a chain of three.
pub proof fn lemma_text_le_transitive(a: Seq<char>, b: Seq<char>, c: Seq<char>)
    requires
        text_le(a, b),
        text_le(b, c),
    ensures
        text_le(a, c),
    decreases a.len(),
{
    if a.len() > 0 && b.len() > 0 && c.len() > 0 {
        if a[0] == b[0] && b[0] == c[0] {
            lemma_text_le_transitive(a.drop_first(), b.drop_first(), c.drop_first());
        }
    }
}

/// The pieces of `s` between its occurrences of `c`, each without the white
/// space around it.
pub open spec fn split_trimmed(s: Seq<char>, c: char) -> Seq<Seq<char>> {
    split_on(s, c).map_values(|piece: Seq<char>| trimmed(piece))
}

/// `first_index` stays within `s`, passes over no `c`, and stops on one.
pub proof fn lemma_first_index(s: Seq<char>, c: char)
    ensures
        0 <= first_index(s, c) <= s.len(),
        forall|j: int| 0 <= j < first_index(s, c) ==> s[j] != c,
        first_index(s, c) < s.len() ==> s[first_index(s, c)] == c,
    decreases s.len(),
{
    if s.len() == 0 || s[0] == c {
    } else {
        let t = s.drop_first();
        lemma_first_index(t, c);
        assert forall|j: int| 0 <= j < first_index(s, c) implies s[j] != c by {
            if j > 0 {
                assert(s[j] == t[j - 1]);
            }
        }
        if first_index(t, c) < t.len() {
            assert(s[first_index(s, c)] == t[first_index(t, c)]);
        }
    }
}

/// An index that passes over no `c` and stops on one, or at the end, is
/// `first_index`.
pub proof fn lemma_first_index_is(s: Seq<char>, c: char, i: int)
    requires
        0 <= i <= s.len(),
        forall|j: int| 0 <= j < i ==> s[j] != c,
        i < s.len() ==> s[i] == c,
    ensures
        first_index(s, c) == i,
{
    lemma_first_index(s, c);
    let k = first_index(s, c);
    if k < i {
        assert(s[k] != c);
    } else if i < k {
        assert(s[i] != c);
    }
}

/// Whether `c` is white space.
pub fn is_white_space(c: char) -> (b: bool)
    ensures
        b == is_whitespace(c),
{
    let u: u32 = c as u32;
    (0x09 <= u && u <= 0x0D) || u == 0x20 || u == 0x85 || u == 0xA0 || u == 0x1680 || (0x2000 <= u
        && u <= 0x200A) || u == 0x2028 || u == 0x2029 || u == 0x202F || u == 0x205F || u == 0x3000
}

/// Whether `c` is a hexadecimal digit, in either case.
pub fn hex_digit(c: char) -> (b: bool)
    ensures
        b == is_hex_digit(c),
{
    let u: u32 = c as u32;
    (0x30 <= u && u <= 0x39) || (0x41 <= u && u <= 0x46) || (0x61 <= u && u <= 0x66)
}

/// Whether `s` is a UUID in canonical form.
pub fn canonical_uuid(s: &str) -> (b: bool)
    ensures
        b == is_canonical_uuid(s@),
{
    let chars = chars_of(s);
    if chars.len() != 36 {
        return false;
    }
    let mut i: usize = 0;
    while i < 36
        invariant
            i <= 36,
            chars.len() == 36,
            chars@ == s@,
            forall|j: int|
                0 <= j < i ==> if is_hyphen_place(j) {
                    #[trigger] s@[j] == '-'
                } else {
                    is_hex_digit(s@[j])
                },
        decreases 36 - i,
    {
        let c = chars[i];
        let fits = if i == 8 || i == 13 || i == 18 || i == 23 {
            c == '-'
        } else {
            hex_digit(c)
        };
        if !fits {
            return false;
        }
        i += 1;
    }
    true
}

/// The characters of `s`, in order.
pub fn chars_of(s: &str) -> (v: Vec<char>)
    ensures
        v@ == s@,
{
    let mut v: Vec<char> = Vec::new();
    for c in it: s.chars()
        invariant
            v@ == it.seq().take(it.index()),
            it.seq() == s@,
    {
        v.push(c);
    }
    v
}

/// Position in `chars` of the first `c`, or its length.
pub fn find_first(chars: &Vec<char>, c: char) -> (i: usize)
    ensures
        i as int == first_index(chars@, c),
{
    let mut i: usize = 0;
    while i < chars.len() && chars[i] != c
        invariant
            i <= chars.len(),
            forall|j: int| 0 <= j < i ==> chars@[j] != c,
        decreases chars.len() - i,
    {
        i += 1;
    }
    proof {
        lemma_first_index_is(chars@, c, i as int);
    }
    i
}

/// Removes every `c` from the end of `s`.
pub fn trim_end_matches(s: &str, c: char) -> (r: &str)
    ensures
        r@ == strip_trailing(s@, c),
{
    let chars = chars_of(s);
    let mut end: usize = chars.len();
    proof {
        assert(s@.take(s@.len() as int) == s@);
    }
    while end > 0 && chars[end - 1] == c
        invariant
            end <= chars.len(),
            chars@ == s@,
            strip_trailing(s@, c) == strip_trailing(s@.take(end as int), c),
        decreases end,
    {
        proof {
            assert(s@.take(end as int).drop_last() == s@.take(end - 1));
        }
        end -= 1;
    }
    proof {
        assert(s@.take(end as int) == s@.subrange(0, end as int));
    }
    s.substring_char(0, end)
}

/// The part of `s` before its first `c`.
pub fn split_first(s: &str, c: char) -> (r: &str)
    ensures
        r@ == before_first(s@, c),
{
    let chars = chars_of(s);
    let i = find_first(&chars, c);
    proof {
        lemma_first_index(s@, c);
        assert(s@.take(i as int) == s@.subrange(0, i as int));
    }
    s.substring_char(0, i)
}

/// Removes the white space at both ends of `s`.
pub fn trim(s: &str) -> (r: &str)
    ensures
        r@ == trimmed(s@),
{
    let chars = chars_of(s);
    let n = chars.len();
    let mut start: usize = 0;
    proof {
        assert(s@.skip(0) == s@);
    }
    while start < n && is_white_space(chars[start])
        invariant
            start <= n,
            n == chars.len(),
            chars@ == s@,
            trim_start(s@) == trim_start(s@.skip(start as int)),
        decreases n - start,
    {
        proof {
            assert(s@.skip(start as int).drop_first() == s@.skip(start + 1));
        }
        start += 1;
    }
    proof {
        assert(s@.skip(start as int) == s@.subrange(start as int, n as int));
    }
    let mut end: usize = n;
    while end > start && is_white_space(chars[end - 1])
        invariant
            start <= end <= n,
            n == chars.len(),
            chars@ == s@,
            trim_start(s@) == s@.skip(start as int),
            trimmed(s@) == trim_end(s@.subrange(start as int, end as int)),
        decreases end,
    {
        proof {
            assert(s@.subrange(start as int, end as int).drop_last() == s@.subrange(
                start as int,
                end - 1,
            ));
        }
        end -= 1;
    }
    s.substring_char(start, end)
}

/// The pieces of `s` between its occurrences of `c`, each without the white
/// space around it.
pub fn split_and_trim(s: &str, c: char) -> (pieces: Vec<String>)
    ensures
        texts(pieces@) == split_trimmed(s@, c),
{
    let chars = chars_of(s);
    let n = chars.len();
    let mut pieces: Vec<String> = Vec::new();
    let ghost mut raw: Seq<Seq<char>> = Seq::empty();
    let mut start: usize = 0;
    proof {
        assert(s@.skip(0) == s@);
        assert(raw + split_on(s@.skip(0), c) =~= split_on(s@, c));
    }
    loop
        invariant_except_break
            start <= n,
            n == chars.len(),
            chars@ == s@,
            split_on(s@, c) == raw + split_on(s@.skip(start as int), c),
            texts(pieces@) == raw.map_values(|piece: Seq<char>| trimmed(piece)),
        ensures
            texts(pieces@) == split_trimmed(s@, c),
        decreases n - start,
    {
        let ghost rest = s@.skip(start as int);
        let mut end: usize = start;
        while end < n && chars[end] != c
            invariant
                start <= end <= n,
                n == chars.len(),
                chars@ == s@,
                rest == s@.skip(start as int),
                forall|j: int| 0 <= j < end - start ==> rest[j] != c,
            decreases n - end,
        {
            end += 1;
        }
        proof {
            lemma_first_index_is(rest, c, end - start);
            assert(rest.take(end - start) =~= s@.subrange(start as int, end as int));
        }
        let piece = String::from_str(trim(s.substring_char(start, end)));
        let ghost earlier = texts(pieces@);
        let ghost found = s@.subrange(start as int, end as int);
        pieces.push(piece);
        proof {
            assert(texts(pieces@) =~= earlier.push(trimmed(found)));
            assert(raw.push(found).map_values(|piece: Seq<char>| trimmed(piece)) =~= raw.map_values(
                |piece: Seq<char>| trimmed(piece),
            ).push(trimmed(found)));
        }
        if end == n {
            proof {
                assert(split_on(rest, c) =~= seq![rest]);
                assert(found =~= rest);
                assert(raw + seq![rest] =~= raw.push(found));
                assert(split_on(s@, c) == raw.push(found));
            }
            break ;
        }
        proof {
            assert(rest.skip(end - start + 1) =~= s@.skip(end + 1));
            assert(raw + (seq![found] + split_on(s@.skip(end + 1), c)) =~= raw.push(found)
                + split_on(s@.skip(end + 1), c));
            raw = raw.push(found);
        }
        start = end + 1;
    }
    pieces
}

/// Whether `s` begins with `prefix`.
pub fn starts_with(s: &str, prefix: &str) -> (b: bool)
    ensures
        b == prefix@.is_prefix_of(s@),
{
    let chars = chars_of(s);
    let head = chars_of(prefix);
    if head.len() > chars.len() {
        return false;
    }
    let mut i: usize = 0;
    while i < head.len()
        invariant
            i <= head.len() <= chars.len(),
            chars@ == s@,
            head@ == prefix@,
            forall|j: int| 0 <= j < i ==> chars@[j] == head@[j],
        decreases head.len() - i,
    {
        if chars[i] != head[i] {
            proof {
                assert(s@.subrange(0, prefix@.len() as int)[i as int] != prefix@[i as int]);
            }
            return false;
        }
        i += 1;
    }
    proof {
        assert(prefix@ =~= s@.subrange(0, prefix@.len() as int));
    }
    true
}

/// Whether `a` comes before `b`, or equals it.
pub fn compare_le(a: &str, b: &str) -> (r: bool)
    ensures
        r == text_le(a@, b@),
{
    let x = chars_of(a);
    let y = chars_of(b);
    let mut i: usize = 0;
    proof {
        assert(a@.skip(0) == a@);
        assert(b@.skip(0) == b@);
    }
    while i < x.len() && i < y.len() && x[i] == y[i]
        invariant
            i <= x.len(),
            i <= y.len(),
            x@ == a@,
            y@ == b@,
            text_le(a@, b@) == text_le(a@.skip(i as int), b@.skip(i as int)),
        decreases x.len() - i,
    {
        proof {
            assert(a@.skip(i as int).drop_first() == a@.skip(i + 1));
            assert(b@.skip(i as int).drop_first() == b@.skip(i + 1));
        }
        i += 1;
    }
    if i == x.len() {
        true
    } else if i == y.len() {
        false
    } else {
        (x[i] as u32) < (y[i] as u32)
    }
}

/// Whether `a` and `b` hold the same characters.
pub fn same_text(a: &str, b: &str) -> (r: bool)
    ensures
        r == (a@ == b@),
{
    let x = String::from_str(a);
    let y = String::from_str(b);
    x == y
}

/// `a` and then `b`.
pub fn join2(a: &str, b: &str) -> (r: String)
    ensures
        r@ == a@ + b@,
{
    let mut r = String::from_str(a);
    r.append(b);
    r
}

/// `a`, `b` and `c` in a row.
pub fn join3(a: &str, b: &str, c: &str) -> (r: String)
    ensures
        r@ == a@ + b@ + c@,
{
    let mut r = String::from_str(a);
    r.append(b);
    r.append(c);
    r
}

} // verus!
