use vstd::prelude::*;
use vstd::string::StrSliceExecFns;
use vstd::string::StringExecFns;

verus! {

/// The Unicode white-space characters, the set that trimming strips.
pub open spec fn is_space(c: char) -> bool {
    let u = c as u32;
    (0x9 <= u && u <= 0xD) || u == 0x20 || u == 0x85 || u == 0xA0 || u == 0x1680 || (0x2000 <= u
        && u <= 0x200A) || u == 0x2028 || u == 0x2029 || u == 0x202F || u == 0x205F || u == 0x3000
}

/// Executable test for `is_space`.
pub fn is_space_char(c: char) -> (r: bool)
    ensures
        r == is_space(c),
{
    let u: u32 = c as u32;
    (0x9 <= u && u <= 0xD) || u == 0x20 || u == 0x85 || u == 0xA0 || u == 0x1680 || (0x2000 <= u
        && u <= 0x200A) || u == 0x2028 || u == 0x2029 || u == 0x202F || u == 0x205F || u == 0x3000
}

/// Index of the first character that is not white space (the length if all
/// characters are white space).
pub open spec fn trim_start_index(s: Seq<char>) -> int
    decreases s.len(),
{
    if s.len() == 0 {
        0
    } else if is_space(s[0]) {
        1 + trim_start_index(s.drop_first())
    } else {
        0
    }
}

/// One past the index of the last character that is not white space (zero if
/// all characters are white space).
pub open spec fn trim_end_index(s: Seq<char>) -> int
    decreases s.len(),
{
    if s.len() == 0 {
        0
    } else if is_space(s[s.len() - 1]) {
        trim_end_index(s.drop_last())
    } else {
        s.len() as int
    }
}

/// The sequence with leading and trailing white space removed.
pub open spec fn spec_trim(s: Seq<char>) -> Seq<char> {
    if trim_start_index(s) <= trim_end_index(s) {
        s.subrange(trim_start_index(s), trim_end_index(s))
    } else {
        Seq::empty()
    }
}

pub proof fn lemma_trim_start(s: Seq<char>)
    ensures
        0 <= trim_start_index(s) <= s.len(),
        forall|j: int| 0 <= j < trim_start_index(s) ==> is_space(s[j]),
        trim_start_index(s) < s.len() ==> !is_space(s[trim_start_index(s)]),
    decreases s.len(),
{
    if s.len() == 0 {
    } else if is_space(s[0]) {
        lemma_trim_start(s.drop_first());
        assert forall|j: int| 0 <= j < trim_start_index(s) implies is_space(s[j]) by {
            if j > 0 {
                assert(s.drop_first()[j - 1] == s[j]);
            }
        }
    }
}

pub proof fn lemma_trim_end(s: Seq<char>)
    ensures
        0 <= trim_end_index(s) <= s.len(),
        forall|j: int| trim_end_index(s) <= j < s.len() ==> is_space(s[j]),
        trim_end_index(s) > 0 ==> !is_space(s[trim_end_index(s) - 1]),
    decreases s.len(),
{
    if s.len() == 0 {
    } else if is_space(s[s.len() - 1]) {
        lemma_trim_end(s.drop_last());
        assert forall|j: int| trim_end_index(s) <= j < s.len() implies is_space(s[j]) by {
            if j < s.len() - 1 {
                assert(s.drop_last()[j] == s[j]);
            }
        }
    }
}

/// Any index below which everything is white space, and at which (if inside
/// the sequence) something is not, is the trim start.
proof fn lemma_trim_start_unique(s: Seq<char>, i: int)
    requires
        0 <= i <= s.len(),
        forall|j: int| 0 <= j < i ==> is_space(s[j]),
        i < s.len() ==> !is_space(s[i]),
    ensures
        i == trim_start_index(s),
{
    lemma_trim_start(s);
    let t = trim_start_index(s);
    if i < t {
        assert(is_space(s[i]));
        assert(!is_space(s[i]));
    } else if t < i {
        assert(is_space(s[t]));
        assert(!is_space(s[t]));
    }
}

proof fn lemma_trim_end_unique(s: Seq<char>, i: int)
    requires
        0 <= i <= s.len(),
        forall|j: int| i <= j < s.len() ==> is_space(s[j]),
        i > 0 ==> !is_space(s[i - 1]),
    ensures
        i == trim_end_index(s),
{
    lemma_trim_end(s);
    let t = trim_end_index(s);
    if i < t {
        assert(is_space(s[t - 1]));
        assert(!is_space(s[t - 1]));
    } else if t < i {
        assert(is_space(s[i - 1]));
        assert(!is_space(s[i - 1]));
    }
}

/// The three-dot ellipsis appended to truncated text.
pub open spec fn ellipsis() -> Seq<char> {
    seq!['.', '.', '.']
}

/// What `sanitize_text` returns: the text trimmed of surrounding white
/// space, truncated to `max` characters with a trailing ellipsis when
/// longer.
pub open spec fn spec_sanitize(s: Seq<char>, max: int) -> Seq<char> {
    let t = spec_trim(s);
    if t.len() <= max {
        t
    } else {
        t.subrange(0, max - 3) + ellipsis()
    }
}

/// Cleans a string for display: trims surrounding white space and, when the
/// result is longer than `max_length` characters, truncates it and appends
/// an ellipsis.
pub fn sanitize_text(text: &str, max_length: usize) -> (r: String)
    requires
        max_length >= 3,
    ensures
        r@ == spec_sanitize(text@, max_length as int),
{
    let n = text.unicode_len();
    let mut a: usize = 0;
    while a < n
        invariant
            n == text@.len(),
            a <= n,
            forall|j: int| 0 <= j < a ==> is_space(text@[j]),
        ensures
            a <= n,
            forall|j: int| 0 <= j < a ==> is_space(text@[j]),
            a == n || !is_space(text@[a as int]),
        decreases n - a,
    {
        if !is_space_char(text.get_char(a)) {
            break ;
        }
        a += 1;
    }
    let mut b: usize = n;
    while b > 0
        invariant
            n == text@.len(),
            b <= n,
            forall|j: int| b <= j < n ==> is_space(text@[j]),
        ensures
            b <= n,
            forall|j: int| b <= j < n ==> is_space(text@[j]),
            b == 0 || !is_space(text@[b - 1]),
        decreases b,
    {
        if !is_space_char(text.get_char(b - 1)) {
            break ;
        }
        b -= 1;
    }
    proof {
        lemma_trim_start_unique(text@, a as int);
        lemma_trim_end_unique(text@, b as int);
    }
    if b <= a {
        let r = String::new();
        proof {
            if trim_start_index(text@) <= trim_end_index(text@) {
                assert(spec_trim(text@) =~= Seq::<char>::empty());
            }
            assert(spec_sanitize(text@, max_length as int) =~= Seq::<char>::empty());
        }
        return r;
    }
    let tlen = b - a;
    if tlen <= max_length {
        let t = text.substring_char(a, b);
        let r = t.to_owned();
        proof {
            assert(spec_trim(text@) == text@.subrange(a as int, b as int));
        }
        r
    } else {
        let head = text.substring_char(a, a + (max_length - 3));
        let r = head.to_owned().concat("...");
        proof {
            reveal_strlit("...");
            assert(("..."@) =~= ellipsis());
            assert(spec_trim(text@) == text@.subrange(a as int, b as int));
            assert(spec_trim(text@).subrange(0, max_length - 3) =~= text@.subrange(
                a as int,
                a + (max_length - 3),
            ));
        }
        r
    }
}

/// A name for what `str::to_lowercase` returns on a given character
/// sequence.
pub uninterp spec fn lower_of(s: Seq<char>) -> Seq<char>;

/// Relies on str::to_lowercase: the Unicode lowercase mapping of the
/// string, a function of its characters alone; an empty string stays empty.
#[verifier::external_body]
pub fn lowercase(s: &str) -> (r: String)
    ensures
        r@ == lower_of(s@),
        s@.len() == 0 ==> r@.len() == 0,
{
    s.to_lowercase()
}

/// `needle` occurs in `hay` starting at index `i`.
pub open spec fn contains_at(hay: Seq<char>, needle: Seq<char>, i: int) -> bool {
    0 <= i && i + needle.len() <= hay.len() && hay.subrange(i, i + needle.len()) == needle
}

/// `needle` occurs somewhere in `hay`.
pub open spec fn spec_contains(hay: Seq<char>, needle: Seq<char>) -> bool {
    exists|i: int| contains_at(hay, needle, i)
}

fn matches_at(hay: &str, needle: &str, i: usize, m: usize) -> (r: bool)
    requires
        m == needle@.len(),
        i + m <= hay@.len(),
        hay@.len() <= usize::MAX,
    ensures
        r == contains_at(hay@, needle@, i as int),
{
    let mut j: usize = 0;
    while j < m
        invariant
            m == needle@.len(),
            i + m <= hay@.len(),
            hay@.len() <= usize::MAX,
            j <= m,
            forall|k: int| 0 <= k < j ==> hay@[i + k] == needle@[k],
        decreases m - j,
    {
        if hay.get_char(i + j) != needle.get_char(j) {
            proof {
                assert(hay@.subrange(i as int, i + m)[j as int] == hay@[i + j]);
            }
            return false;
        }
        j += 1;
    }
    proof {
        assert(hay@.subrange(i as int, i + m) =~= needle@);
    }
    true
}

/// Character-level substring search.
pub fn contains_chars(hay: &str, needle: &str) -> (r: bool)
    ensures
        r == spec_contains(hay@, needle@),
{
    let n = hay.unicode_len();
    let m = needle.unicode_len();
    if m > n {
        return false;
    }
    let last = n - m;
    let mut i: usize = 0;
    loop
        invariant
            n == hay@.len(),
            m == needle@.len(),
            m <= n,
            last == n - m,
            i <= last,
            forall|j: int| 0 <= j < i ==> !contains_at(hay@, needle@, j),
        ensures
            forall|j: int| 0 <= j <= last ==> !contains_at(hay@, needle@, j),
        decreases last - i,
    {
        if matches_at(hay, needle, i, m) {
            proof {
                assert(contains_at(hay@, needle@, i as int));
            }
            return true;
        }
        if i == last {
            break ;
        }
        i += 1;
    }
    proof {
        assert forall|j: int| !contains_at(hay@, needle@, j) by {
            if j > last {
                assert(j + needle@.len() > hay@.len());
            }
        }
    }
    false
}

} // verus!
