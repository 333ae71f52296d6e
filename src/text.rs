//! Character-level helpers on which device and configuration handling rest.
use vstd::prelude::*;
use vstd::string::StrSliceExecFns;

verus! {

/// Whether `needle` occurs in `hay` as a contiguous run of characters.
pub open spec fn occurs_in(hay: Seq<char>, needle: Seq<char>) -> bool {
    exists|i: int|
        0 <= i && i + needle.len() <= hay.len() && #[trigger] hay.subrange(i, i + needle.len())
            == needle
}

/// Bus separators `:` and `.` become `_`; every other character stays.
pub open spec fn slot_char(c: char) -> char {
    if c == ':' || c == '.' {
        '_'
    } else {
        c
    }
}

pub open spec fn normalized_slot(s: Seq<char>) -> Seq<char> {
    s.map_values(|c: char| slot_char(c))
}

pub open spec fn is_blank(c: char) -> bool {
    c == ' ' || c == '\t' || c == '\n' || c == '\r'
}

/// `s` without the blanks at either end.
pub open spec fn trimmed(s: Seq<char>) -> Seq<char>
    decreases s.len(),
{
    if s.len() > 0 && is_blank(s[0]) {
        trimmed(s.drop_first())
    } else if s.len() > 0 && is_blank(s.last()) {
        trimmed(s.drop_last())
    } else {
        s
    }
}

/// ASCII upper-case letters folded to lower case.
pub open spec fn folded_char(c: char) -> char {
    if 'A' <= c && c <= 'Z' {
        ((c as u8) + 32) as char
    } else {
        c
    }
}

pub open spec fn folded(s: Seq<char>) -> Seq<char> {
    s.map_values(|c: char| folded_char(c))
}

fn fold_char(c: char) -> (r: char)
    ensures
        r == folded_char(c),
{
    if 'A' <= c && c <= 'Z' {
        ((c as u8) + 32) as char
    } else {
        c
    }
}

fn blank(c: char) -> (r: bool)
    ensures
        r == is_blank(c),
{
    c == ' ' || c == '\t' || c == '\n' || c == '\r'
}

/// Whether two strings hold the same characters.
pub fn same_text(a: &str, b: &str) -> (r: bool)
    ensures
        r == (a@ == b@),
{
    let n = a.unicode_len();
    if n != b.unicode_len() {
        return false;
    }
    let mut i: usize = 0;
    while i < n
        invariant
            n == a@.len(),
            n == b@.len(),
            i <= n,
            a@.subrange(0, i as int) == b@.subrange(0, i as int),
        decreases n - i,
    {
        if a.get_char(i) != b.get_char(i) {
            assert(a@[i as int] != b@[i as int]);
            return false;
        }
        assert(a@.subrange(0, i + 1) =~= a@.subrange(0, i as int).push(a@[i as int]));
        assert(b@.subrange(0, i + 1) =~= b@.subrange(0, i as int).push(b@[i as int]));
        i = i + 1;
    }
    assert(a@ =~= a@.subrange(0, n as int));
    assert(b@ =~= b@.subrange(0, n as int));
    true
}

/// Whether `needle` occurs in `hay`.
pub fn contains_text(hay: &str, needle: &str) -> (r: bool)
    ensures
        r == occurs_in(hay@, needle@),
{
    let h = hay.unicode_len();
    let n = needle.unicode_len();
    if n > h {
        return false;
    }
    let mut i: usize = 0;
    while i <= h - n
        invariant
            h == hay@.len(),
            n == needle@.len(),
            n <= h,
            i <= h - n + 1,
            forall|k: int| 0 <= k < i ==> #[trigger] hay@.subrange(k, k + n) != needle@,
        decreases h - n + 1 - i,
    {
        let mut j: usize = 0;
        let mut same = true;
        assert(hay@.subrange(i as int, i as int) =~= needle@.subrange(0, 0));
        while j < n
            invariant
                h == hay@.len(),
                n == needle@.len(),
                i + n <= h,
                j <= n,
                same == (hay@.subrange(i as int, i + j) == needle@.subrange(0, j as int)),
            decreases n - j,
        {
            if same && hay.get_char(i + j) != needle.get_char(j) {
                same = false;
                assert(hay@.subrange(i as int, i + j + 1)[j as int] != needle@.subrange(
                    0,
                    j + 1,
                )[j as int]);
            } else if same {
                assert(hay@.subrange(i as int, i + j + 1) =~= hay@.subrange(i as int, i + j).push(
                    hay@[i + j],
                ));
                assert(needle@.subrange(0, j + 1) =~= needle@.subrange(0, j as int).push(
                    needle@[j as int],
                ));
            } else {
                assert(hay@.subrange(i as int, i + j + 1).subrange(0, j as int) =~= hay@.subrange(
                    i as int,
                    i + j,
                ));
                assert(needle@.subrange(0, j + 1).subrange(0, j as int) =~= needle@.subrange(
                    0,
                    j as int,
                ));
            }
            j = j + 1;
        }
        assert(needle@.subrange(0, n as int) =~= needle@);
        if same {
            assert(hay@.subrange(i as int, i + n) == needle@);
            return true;
        }
        if i == h - n {
            assert forall|k: int| 0 <= k && k + needle@.len() <= hay@.len() implies #[trigger] hay@.subrange(
                k,
                k + needle@.len(),
            ) != needle@ by {}
            return false;
        }
        i = i + 1;
    }
    assert forall|k: int| 0 <= k && k + needle@.len() <= hay@.len() implies #[trigger] hay@.subrange(
        k,
        k + needle@.len(),
    ) != needle@ by {}
    false
}

/// A bus address with `:` and `.` replaced by `_`.
pub fn normalize_slot(slot: &str) -> (r: String)
    ensures
        r@ == normalized_slot(slot@),
{
    let n = slot.unicode_len();
    let mut out = String::new();
    let mut i: usize = 0;
    while i < n
        invariant
            n == slot@.len(),
            i <= n,
            out@ == normalized_slot(slot@.subrange(0, i as int)),
        decreases n - i,
    {
        let c = slot.get_char(i);
        if c == ':' || c == '.' {
            out.append("_");
        } else {
            out.append(slot.substring_char(i, i + 1));
        }
        proof {
            reveal_strlit("_");
        }
        assert(out@ =~= normalized_slot(slot@.subrange(0, i + 1)));
        i = i + 1;
    }
    assert(slot@.subrange(0, n as int) =~= slot@);
    out
}

proof fn lemma_trimmed_front(s: Seq<char>, lo: int, hi: int)
    requires
        0 <= lo < hi <= s.len(),
        is_blank(s[lo]),
    ensures
        trimmed(s.subrange(lo, hi)) == trimmed(s.subrange(lo + 1, hi)),
{
    assert(s.subrange(lo, hi).drop_first() =~= s.subrange(lo + 1, hi));
}

proof fn lemma_trimmed_back(s: Seq<char>, lo: int, hi: int)
    requires
        0 <= lo < hi <= s.len(),
        !is_blank(s[lo]),
        is_blank(s[hi - 1]),
    ensures
        trimmed(s.subrange(lo, hi)) == trimmed(s.subrange(lo, hi - 1)),
{
    assert(s.subrange(lo, hi).drop_last() =~= s.subrange(lo, hi - 1));
}

/// Whether `word`, with blanks at its ends dropped and ASCII case folded,
/// reads `lower`.
pub fn matches_folded(word: &str, lower: &str) -> (r: bool)
    ensures
        r == (folded(trimmed(word@)) == lower@),
{
    let n = word.unicode_len();
    let mut lo: usize = 0;
    assert(word@.subrange(0, n as int) =~= word@);
    while lo < n && blank(word.get_char(lo))
        invariant
            n == word@.len(),
            lo <= n,
            trimmed(word@) == trimmed(word@.subrange(lo as int, n as int)),
        decreases n - lo,
    {
        proof {
            lemma_trimmed_front(word@, lo as int, n as int);
        }
        lo = lo + 1;
    }
    let mut hi: usize = n;
    while hi > lo && blank(word.get_char(hi - 1))
        invariant
            n == word@.len(),
            lo <= hi <= n,
            lo < hi ==> !is_blank(word@[lo as int]),
            trimmed(word@) == trimmed(word@.subrange(lo as int, hi as int)),
        decreases hi - lo,
    {
        proof {
            lemma_trimmed_back(word@, lo as int, hi as int);
        }
        hi = hi - 1;
    }
    let core = Ghost(word@.subrange(lo as int, hi as int));
    assert(trimmed(core@) == core@) by {
        if core@.len() > 0 {
            assert(core@[0] == word@[lo as int]);
            assert(core@.last() == word@[hi - 1]);
        }
    }
    let m = lower.unicode_len();
    if m != hi - lo {
        assert(folded(core@).len() == core@.len());
        return false;
    }
    let mut i: usize = 0;
    while i < m
        invariant
            n == word@.len(),
            m == lower@.len(),
            lo <= hi <= n,
            m == hi - lo,
            i <= m,
            core@ == word@.subrange(lo as int, hi as int),
            trimmed(word@) == core@,
            folded(core@).subrange(0, i as int) == lower@.subrange(0, i as int),
        decreases m - i,
    {
        if fold_char(word.get_char(lo + i)) != lower.get_char(i) {
            assert(core@[i as int] == word@[lo + i]);
            assert(folded(core@)[i as int] != lower@[i as int]);
            return false;
        }
        assert(folded(core@).subrange(0, i + 1) =~= folded(core@).subrange(0, i as int).push(
            folded(core@)[i as int],
        ));
        assert(lower@.subrange(0, i + 1) =~= lower@.subrange(0, i as int).push(lower@[i as int]));
        i = i + 1;
    }
    assert(folded(core@) =~= folded(core@).subrange(0, m as int));
    assert(lower@ =~= lower@.subrange(0, m as int));
    true
}

} // verus!
