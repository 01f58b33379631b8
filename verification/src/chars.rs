use vstd::prelude::*;

verus! {

// Character classes used by the type cleaner. Whitespace is the ASCII set
// that separates tokens in type strings; word characters are the identifier
// alphabet.
pub open spec fn spec_is_ws(c: char) -> bool {
    c == ' ' || c == '\t' || c == '\n' || c == '\r'
}

pub open spec fn spec_is_word(c: char) -> bool {
    ('a' as u32 <= c as u32 && c as u32 <= 'z' as u32) || ('A' as u32 <= c as u32 && c as u32
        <= 'Z' as u32) || ('0' as u32 <= c as u32 && c as u32 <= '9' as u32) || c == '_'
}

/// Uppercase identifier characters, the alphabet of Unreal visibility macros.
pub open spec fn spec_is_upper_word(c: char) -> bool {
    ('A' as u32 <= c as u32 && c as u32 <= 'Z' as u32) || ('0' as u32 <= c as u32 && c as u32
        <= '9' as u32) || c == '_'
}

pub fn is_ws(c: char) -> (r: bool)
    ensures
        r == spec_is_ws(c),
{
    c == ' ' || c == '\t' || c == '\n' || c == '\r'
}

pub fn is_word(c: char) -> (r: bool)
    ensures
        r == spec_is_word(c),
{
    let u = c as u32;
    ('a' as u32 <= u && u <= 'z' as u32) || ('A' as u32 <= u && u <= 'Z' as u32) || ('0' as u32
        <= u && u <= '9' as u32) || c == '_'
}

pub fn is_upper_word(c: char) -> (r: bool)
    ensures
        r == spec_is_upper_word(c),
{
    let u = c as u32;
    ('A' as u32 <= u && u <= 'Z' as u32) || ('0' as u32 <= u && u <= '9' as u32) || c == '_'
}

/// ASCII lowering of a single character, as a code point.
pub open spec fn spec_lower_u(c: char) -> u32 {
    if 'A' as u32 <= c as u32 && c as u32 <= 'Z' as u32 {
        (c as u32 + 32) as u32
    } else {
        c as u32
    }
}

/// Case-insensitive equality of two character sequences, folding ASCII case
/// only, as SQLite's LOWER does.
pub open spec fn spec_eq_ci(a: Seq<char>, b: Seq<char>) -> bool {
    a.len() == b.len() && forall|i: int| 0 <= i < a.len() ==> spec_lower_u(a[i]) == spec_lower_u(
        b[i],
    )
}

pub fn lower_u(c: char) -> (r: u32)
    ensures
        r == spec_lower_u(c),
{
    let u = c as u32;
    if 'A' as u32 <= u && u <= 'Z' as u32 {
        u + 32
    } else {
        u
    }
}

pub fn eq_ci(a: &Vec<char>, b: &Vec<char>) -> (r: bool)
    ensures
        r == spec_eq_ci(a@, b@),
{
    if a.len() != b.len() {
        return false;
    }
    let n = a.len();
    let mut i: usize = 0;
    while i < n
        invariant
            i <= n,
            a@.len() == n,
            b@.len() == n,
            forall|j: int| 0 <= j < i ==> spec_lower_u(a@[j]) == spec_lower_u(b@[j]),
        decreases n - i,
    {
        if lower_u(a[i]) != lower_u(b[i]) {
            return false;
        }
        i += 1;
    }
    true
}

pub fn eq_chars(a: &Vec<char>, b: &Vec<char>) -> (r: bool)
    ensures
        r == (a@ == b@),
{
    if a.len() != b.len() {
        assert(a@ != b@);
        return false;
    }
    let n = a.len();
    let mut i: usize = 0;
    while i < n
        invariant
            i <= n,
            a@.len() == n,
            b@.len() == n,
            forall|j: int| 0 <= j < i ==> a@[j] == b@[j],
        decreases n - i,
    {
        if a[i] != b[i] {
            assert(a@ != b@);
            return false;
        }
        i += 1;
    }
    assert(a@ =~= b@);
    true
}

/// True exactly when the characters of `a` spell the literal `b`.
pub fn eq_chars_lit(a: &Vec<char>, b: &str) -> (r: bool)
    ensures
        r == (a@ == b@),
{
    let bl = b.unicode_len();
    if a.len() != bl {
        assert(a@ != b@);
        return false;
    }
    let mut i: usize = 0;
    while i < bl
        invariant
            i <= bl,
            a@.len() == bl,
            b@.len() == bl,
            forall|j: int| 0 <= j < i ==> a@[j] == b@[j],
        decreases bl - i,
    {
        if a[i] != b.get_char(i) {
            assert(a@ != b@);
            return false;
        }
        i += 1;
    }
    assert(a@ =~= b@);
    true
}

/// Copies the characters of a string into a vector; the view is unchanged.
pub fn str_to_chars(s: &str) -> (v: Vec<char>)
    ensures
        v@ == s@,
{
    let n = s.unicode_len();
    let mut v: Vec<char> = Vec::new();
    let mut i: usize = 0;
    while i < n
        invariant
            i <= n,
            s@.len() == n,
            v@ =~= s@.subrange(0, i as int),
        decreases n - i,
    {
        v.push(s.get_char(i));
        i += 1;
    }
    assert(v@ =~= s@);
    v
}

pub fn clone_chars(v: &Vec<char>) -> (r: Vec<char>)
    ensures
        r@ == v@,
{
    let n = v.len();
    let mut r: Vec<char> = Vec::new();
    let mut i: usize = 0;
    while i < n
        invariant
            i <= n,
            v@.len() == n,
            r@ =~= v@.subrange(0, i as int),
        decreases n - i,
    {
        r.push(v[i]);
        i += 1;
    }
    assert(r@ =~= v@);
    r
}

pub fn subvec(v: &Vec<char>, a: usize, b: usize) -> (r: Vec<char>)
    requires
        a <= b <= v@.len(),
    ensures
        r@ == v@.subrange(a as int, b as int),
{
    let mut r: Vec<char> = Vec::new();
    let mut i: usize = a;
    while i < b
        invariant
            a <= i <= b <= v@.len(),
            r@ =~= v@.subrange(a as int, i as int),
        decreases b - i,
    {
        r.push(v[i]);
        i += 1;
    }
    assert(r@ =~= v@.subrange(a as int, b as int));
    r
}

// Trimming drops leading and trailing whitespace.
pub open spec fn spec_trim_front(s: Seq<char>) -> Seq<char>
    decreases s.len(),
{
    if s.len() > 0 && spec_is_ws(s[0]) {
        spec_trim_front(s.drop_first())
    } else {
        s
    }
}

pub open spec fn spec_trim_back(s: Seq<char>) -> Seq<char>
    decreases s.len(),
{
    if s.len() > 0 && spec_is_ws(s.last()) {
        spec_trim_back(s.drop_last())
    } else {
        s
    }
}

pub open spec fn spec_trim(s: Seq<char>) -> Seq<char> {
    spec_trim_back(spec_trim_front(s))
}

pub proof fn lemma_trim_front_len(s: Seq<char>)
    ensures
        spec_trim_front(s).len() <= s.len(),
    decreases s.len(),
{
    if s.len() > 0 && spec_is_ws(s[0]) {
        lemma_trim_front_len(s.drop_first());
    }
}

pub proof fn lemma_trim_back_len(s: Seq<char>)
    ensures
        spec_trim_back(s).len() <= s.len(),
    decreases s.len(),
{
    if s.len() > 0 && spec_is_ws(s.last()) {
        lemma_trim_back_len(s.drop_last());
    }
}

pub proof fn lemma_trim_len(s: Seq<char>)
    ensures
        spec_trim(s).len() <= s.len(),
{
    lemma_trim_front_len(s);
    lemma_trim_back_len(spec_trim_front(s));
}

/// Trimming a sequence without whitespace leaves it unchanged.
pub proof fn lemma_trim_no_ws(s: Seq<char>)
    requires
        forall|i: int| 0 <= i < s.len() ==> !spec_is_ws(s[i]),
    ensures
        spec_trim(s) == s,
{
    assert(spec_trim_front(s) == s) by {
        if s.len() > 0 {
            assert(!spec_is_ws(s[0]));
        }
    }
    assert(spec_trim_back(s) == s) by {
        if s.len() > 0 {
            assert(!spec_is_ws(s[s.len() - 1]));
        }
    }
}

#[verifier::rlimit(50)]
pub fn trim_vec(v: &Vec<char>) -> (r: Vec<char>)
    ensures
        r@ == spec_trim(v@),
{
    let n = v.len();
    proof {
        assert(v@.subrange(0, n as int) =~= v@);
    }
    let mut a: usize = 0;
    while a < n && is_ws(v[a])
        invariant
            a <= n,
            v@.len() == n,
            forall|j: int| 0 <= j < a ==> spec_is_ws(v@[j]),
            spec_trim_front(v@) == spec_trim_front(v@.subrange(a as int, n as int)),
        decreases n - a,
    {
        proof {
            let t = v@.subrange(a as int, n as int);
            assert(t.len() > 0 && spec_is_ws(t[0]));
            assert(t.drop_first() =~= v@.subrange(a as int + 1, n as int));
        }
        a += 1;
    }
    let mut b: usize = n;
    while b > a && is_ws(v[b - 1])
        invariant
            a <= b <= n,
            v@.len() == n,
            forall|j: int| 0 <= j < a ==> spec_is_ws(v@[j]),
            spec_trim_front(v@) == spec_trim_front(v@.subrange(a as int, n as int)),
            a < n ==> !spec_is_ws(v@[a as int]),
            spec_trim_back(spec_trim_front(v@)) == spec_trim_back(
                spec_trim_front(v@.subrange(a as int, b as int)),
            ),
        decreases b,
    {
        proof {
            let t = v@.subrange(a as int, b as int);
            assert(spec_trim_front(t) == t) by {
                if t.len() > 0 {
                    assert(t[0] == v@[a as int]);
                }
            }
            assert(t.len() > 0 && spec_is_ws(t.last()));
            assert(t.drop_last() =~= v@.subrange(a as int, b as int - 1));
            let t2 = v@.subrange(a as int, b as int - 1);
            assert(spec_trim_front(t2) == t2) by {
                if t2.len() > 0 {
                    assert(t2[0] == v@[a as int]);
                }
            }
        }
        b -= 1;
    }
    proof {
        let t = v@.subrange(a as int, b as int);
        assert(spec_trim_front(t) == t) by {
            if t.len() > 0 {
                assert(t[0] == v@[a as int]);
            }
        }
        assert(spec_trim_back(t) == t) by {
            if t.len() > 0 {
                assert(t.last() == v@[b as int - 1]);
                assert(!spec_is_ws(v@[b as int - 1]));
            }
        }
    }
    subvec(v, a, b)
}

} // verus!
