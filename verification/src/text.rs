//! Character-level text utilities: whitespace trimming, delimiter search and
//! lexicographic ordering, each specified over `Seq<char>` views.

use vstd::prelude::*;

verus! {

/// Whether `c` has the Unicode `White_Space` property, as `char::is_whitespace`
/// defines it.
pub open spec fn is_space(c: char) -> bool {
    let u = c as u32;
    u == 0x09 || u == 0x0A || u == 0x0B || u == 0x0C || u == 0x0D || u == 0x20 || u == 0x85
        || u == 0xA0 || u == 0x1680 || (0x2000 <= u && u <= 0x200A) || u == 0x2028 || u == 0x2029
        || u == 0x202F || u == 0x205F || u == 0x3000
}

pub fn is_space_char(c: char) -> (r: bool)
    ensures
        r == is_space(c),
{
    let u = c as u32;
    u == 0x09 || u == 0x0A || u == 0x0B || u == 0x0C || u == 0x0D || u == 0x20 || u == 0x85
        || u == 0xA0 || u == 0x1680 || (0x2000 <= u && u <= 0x200A) || u == 0x2028 || u == 0x2029
        || u == 0x202F || u == 0x205F || u == 0x3000
}

/// The sequence without its leading whitespace.
pub open spec fn spec_trim_start(s: Seq<char>) -> Seq<char>
    decreases s.len(),
{
    if s.len() == 0 {
        s
    } else if is_space(s[0]) {
        spec_trim_start(s.drop_first())
    } else {
        s
    }
}

/// The sequence without its trailing whitespace.
pub open spec fn spec_trim_end(s: Seq<char>) -> Seq<char>
    decreases s.len(),
{
    if s.len() == 0 {
        s
    } else if is_space(s.last()) {
        spec_trim_end(s.drop_last())
    } else {
        s
    }
}

/// The sequence without leading or trailing whitespace.
pub open spec fn spec_trim(s: Seq<char>) -> Seq<char> {
    spec_trim_end(spec_trim_start(s))
}

proof fn lemma_trim_start_at(s: Seq<char>, i: int)
    requires
        0 <= i <= s.len(),
        forall|j: int| 0 <= j < i ==> is_space(s[j]),
        i == s.len() || !is_space(s[i]),
    ensures
        spec_trim_start(s) == s.subrange(i, s.len() as int),
    decreases i,
{
    if i == 0 {
        assert(spec_trim_start(s) =~= s.subrange(0, s.len() as int));
    } else {
        assert(is_space(s[0]));
        lemma_trim_start_at(s.drop_first(), i - 1);
        assert(s.drop_first().subrange(i - 1, s.drop_first().len() as int) =~= s.subrange(
            i,
            s.len() as int,
        ));
    }
}

proof fn lemma_trim_end_at(s: Seq<char>, i: int)
    requires
        0 <= i <= s.len(),
        forall|j: int| i <= j < s.len() ==> is_space(s[j]),
        i == 0 || !is_space(s[i - 1]),
    ensures
        spec_trim_end(s) == s.subrange(0, i),
    decreases s.len() - i,
{
    if i == s.len() {
        assert(spec_trim_end(s) =~= s.subrange(0, i));
    } else {
        assert(is_space(s.last()));
        lemma_trim_end_at(s.drop_last(), i);
        assert(s.drop_last().subrange(0, i) =~= s.subrange(0, i));
    }
}

/// The input without its leading whitespace.
pub fn trim_start_str(s: &str) -> (r: &str)
    ensures
        r@ == spec_trim_start(s@),
{
    let len = s.unicode_len();
    let mut i: usize = 0;
    while i < len && is_space_char(s.get_char(i))
        invariant
            0 <= i <= len,
            len == s@.len(),
            forall|j: int| 0 <= j < i ==> is_space(s@[j]),
        decreases len - i,
    {
        i = i + 1;
    }
    proof {
        lemma_trim_start_at(s@, i as int);
    }
    s.substring_char(i, len)
}

/// The input without leading or trailing whitespace.
pub fn trim_str(s: &str) -> (r: &str)
    ensures
        r@ == spec_trim(s@),
{
    let t = trim_start_str(s);
    let len = t.unicode_len();
    let mut i: usize = len;
    while i > 0 && is_space_char(t.get_char(i - 1))
        invariant
            0 <= i <= len,
            len == t@.len(),
            forall|j: int| i <= j < len ==> is_space(t@[j]),
        decreases i,
    {
        i = i - 1;
    }
    proof {
        lemma_trim_end_at(t@, i as int);
    }
    t.substring_char(0, i)
}

/// Whether the three-character delimiter `---` stands at position `j`.
pub open spec fn marker_at(s: Seq<char>, j: int) -> bool {
    j + 3 <= s.len() && s[j] == '-' && s[j + 1] == '-' && s[j + 2] == '-'
}

/// The first position at or after `from` where the delimiter stands.
pub open spec fn spec_find_marker(s: Seq<char>, from: int) -> Option<int>
    decreases s.len() - from,
{
    if from < 0 || from + 3 > s.len() {
        None
    } else if marker_at(s, from) {
        Some(from)
    } else {
        spec_find_marker(s, from + 1)
    }
}

/// Scans for the first occurrence of the delimiter at or after `from`.
pub fn find_marker(s: &str, from: usize) -> (r: Option<usize>)
    ensures
        (match r {
            Some(j) => spec_find_marker(s@, from as int) == Some(j as int),
            None => spec_find_marker(s@, from as int) == None::<int>,
        }),
{
    let len = s.unicode_len();
    if len < 3 {
        return None;
    }
    let mut j: usize = from;
    while j <= len - 3
        invariant
            from <= j,
            3 <= len == s@.len(),
            spec_find_marker(s@, from as int) == spec_find_marker(s@, j as int),
        decreases len - j,
    {
        if s.get_char(j) == '-' && s.get_char(j + 1) == '-' && s.get_char(j + 2) == '-' {
            return Some(j);
        }
        j = j + 1;
    }
    None
}

/// Compares two strings character by character.
pub fn str_eq(a: &str, b: &str) -> (r: bool)
    ensures
        r == (a@ == b@),
{
    let alen = a.unicode_len();
    let blen = b.unicode_len();
    if alen != blen {
        return false;
    }
    let mut i: usize = 0;
    while i < alen
        invariant
            0 <= i <= alen,
            alen == a@.len() == b@.len(),
            forall|j: int| 0 <= j < i ==> a@[j] == b@[j],
        decreases alen - i,
    {
        if a.get_char(i) != b.get_char(i) {
            return false;
        }
        i = i + 1;
    }
    proof {
        assert(a@ =~= b@);
    }
    true
}

/// Strict lexicographic order on character sequences, by code point.
pub open spec fn lex_lt(a: Seq<char>, b: Seq<char>) -> bool
    decreases a.len(),
{
    if b.len() == 0 {
        false
    } else if a.len() == 0 {
        true
    } else if a[0] < b[0] {
        true
    } else if a[0] > b[0] {
        false
    } else {
        lex_lt(a.drop_first(), b.drop_first())
    }
}

/// `lex_lt` is total: two sequences not ordered either way are equal.
pub proof fn lemma_lex_total(a: Seq<char>, b: Seq<char>)
    requires
        !lex_lt(a, b),
        !lex_lt(b, a),
    ensures
        a == b,
    decreases a.len(),
{
    if b.len() == 0 || a.len() == 0 {
        assert(a =~= b);
    } else {
        assert(a[0] == b[0]);
        lemma_lex_total(a.drop_first(), b.drop_first());
        assert(a.len() == b.len());
        assert forall|i: int| 0 <= i < a.len() implies a[i] == b[i] by {
            if i > 0 {
                assert(a[i] == a.drop_first()[i - 1]);
                assert(b[i] == b.drop_first()[i - 1]);
            }
        }
        assert(a =~= b);
    }
}

/// `lex_lt` is transitive.
pub proof fn lemma_lex_trans(a: Seq<char>, b: Seq<char>, c: Seq<char>)
    requires
        lex_lt(a, b),
        lex_lt(b, c),
    ensures
        lex_lt(a, c),
    decreases a.len() + b.len() + c.len(),
{
    if a.len() == 0 || b.len() == 0 || c.len() == 0 {
    } else {
        if a[0] == b[0] && b[0] == c[0] {
            lemma_lex_trans(a.drop_first(), b.drop_first(), c.drop_first());
        }
    }
}

/// Compares two strings lexicographically by code point.
pub fn lex_lt_str(a: &str, b: &str) -> (r: bool)
    ensures
        r == lex_lt(a@, b@),
    decreases a@.len(),
{
    let alen = a.unicode_len();
    let blen = b.unicode_len();
    if blen == 0 {
        false
    } else if alen == 0 {
        true
    } else {
        let ca = a.get_char(0);
        let cb = b.get_char(0);
        if ca < cb {
            true
        } else if ca > cb {
            false
        } else {
            let r = lex_lt_str(a.substring_char(1, alen), b.substring_char(1, blen));
            proof {
                assert(a@.subrange(1, a@.len() as int) =~= a@.drop_first());
                assert(b@.subrange(1, b@.len() as int) =~= b@.drop_first());
            }
            r
        }
    }
}

} // verus!
