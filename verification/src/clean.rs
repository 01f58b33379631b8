use vstd::prelude::*;
use crate::chars::{spec_is_word, spec_is_upper_word, spec_is_ws, is_word, is_upper_word, is_ws,
    eq_chars_lit, subvec, spec_trim, trim_vec, lemma_trim_len, lemma_trim_no_ws};

verus! {

// ---------------------------------------------------------------------------
// Index searches
// ---------------------------------------------------------------------------
/// Index of the first occurrence of `c` in `s`, or `s.len()` when absent.
pub open spec fn first_idx(s: Seq<char>, c: char) -> int
    decreases s.len(),
{
    if s.len() == 0 {
        0
    } else if s[0] == c {
        0
    } else {
        1 + first_idx(s.drop_first(), c)
    }
}

/// Index of the last occurrence of `c` in `s`, or `-1` when absent.
pub open spec fn last_idx(s: Seq<char>, c: char) -> int
    decreases s.len(),
{
    if s.len() == 0 {
        -1
    } else if s.last() == c {
        s.len() - 1
    } else {
        last_idx(s.drop_last(), c)
    }
}

pub proof fn lemma_first_idx_props(s: Seq<char>, c: char)
    ensures
        0 <= first_idx(s, c) <= s.len(),
        first_idx(s, c) < s.len() ==> s[first_idx(s, c)] == c,
        forall|j: int| 0 <= j < first_idx(s, c) ==> s[j] != c,
    decreases s.len(),
{
    if s.len() > 0 && s[0] != c {
        lemma_first_idx_props(s.drop_first(), c);
        assert forall|j: int| 0 <= j < first_idx(s, c) implies s[j] != c by {
            if j > 0 {
                assert(s.drop_first()[j - 1] == s[j]);
            }
        }
        if first_idx(s, c) < s.len() {
            assert(s.drop_first()[first_idx(s.drop_first(), c)] == s[first_idx(s, c)]);
        }
    }
}

pub proof fn lemma_first_idx_determined(s: Seq<char>, c: char, k: int)
    requires
        0 <= k <= s.len(),
        k < s.len() ==> s[k] == c,
        forall|j: int| 0 <= j < k ==> s[j] != c,
        k == s.len() ==> forall|j: int| 0 <= j < s.len() ==> s[j] != c,
    ensures
        first_idx(s, c) == k,
    decreases s.len(),
{
    if s.len() > 0 && s[0] != c {
        assert forall|j: int| 0 <= j < k - 1 implies s.drop_first()[j] != c by {
            assert(s.drop_first()[j] == s[j + 1]);
        }
        if k == s.len() {
            assert forall|j: int| 0 <= j < s.drop_first().len() implies s.drop_first()[j] != c by {
                assert(s.drop_first()[j] == s[j + 1]);
            }
        } else {
            assert(s.drop_first()[k - 1] == s[k]);
        }
        lemma_first_idx_determined(s.drop_first(), c, k - 1);
    }
}

pub proof fn lemma_last_idx_props(s: Seq<char>, c: char)
    ensures
        -1 <= last_idx(s, c) < s.len(),
        last_idx(s, c) >= 0 ==> s[last_idx(s, c)] == c,
        forall|j: int| last_idx(s, c) < j < s.len() ==> s[j] != c,
    decreases s.len(),
{
    if s.len() > 0 && s.last() != c {
        lemma_last_idx_props(s.drop_last(), c);
        assert forall|j: int| last_idx(s, c) < j < s.len() implies s[j] != c by {
            if j < s.len() - 1 {
                assert(s.drop_last()[j] == s[j]);
            }
        }
        if last_idx(s, c) >= 0 {
            assert(s.drop_last()[last_idx(s, c)] == s[last_idx(s, c)]);
        }
    }
}

pub proof fn lemma_last_idx_determined(s: Seq<char>, c: char, k: int)
    requires
        -1 <= k < s.len(),
        k >= 0 ==> s[k] == c,
        forall|j: int| k < j < s.len() ==> s[j] != c,
    ensures
        last_idx(s, c) == k,
    decreases s.len(),
{
    if s.len() > 0 && s.last() != c {
        assert forall|j: int| k < j < s.drop_last().len() implies s.drop_last()[j] != c by {
            assert(s.drop_last()[j] == s[j]);
        }
        if k >= 0 {
            assert(s.drop_last()[k] == s[k]);
        }
        lemma_last_idx_determined(s.drop_last(), c, k);
    }
}

/// First index of `c` in `v`, or `v.len()` when `c` does not occur.
pub fn find_first(v: &Vec<char>, c: char) -> (r: usize)
    ensures
        r == first_idx(v@, c),
{
    let n = v.len();
    let mut i: usize = 0;
    while i < n
        invariant
            i <= n,
            v@.len() == n,
            forall|j: int| 0 <= j < i ==> v@[j] != c,
        decreases n - i,
    {
        if v[i] == c {
            proof {
                lemma_first_idx_determined(v@, c, i as int);
            }
            return i;
        }
        i += 1;
    }
    proof {
        lemma_first_idx_determined(v@, c, n as int);
    }
    n
}

/// Last index of `c` in `v`, or `None` when `c` does not occur.
pub fn find_last(v: &Vec<char>, c: char) -> (r: Option<usize>)
    ensures
        match r {
            Some(k) => k == last_idx(v@, c),
            None => last_idx(v@, c) == -1,
        },
{
    let n = v.len();
    let mut i: usize = n;
    while i > 0
        invariant
            i <= n,
            v@.len() == n,
            forall|j: int| i <= j < n ==> v@[j] != c,
        decreases i,
    {
        i -= 1;
        if v[i] == c {
            proof {
                lemma_last_idx_determined(v@, c, i as int);
            }
            return Some(i);
        }
    }
    proof {
        lemma_last_idx_determined(v@, c, -1);
    }
    None
}

// ---------------------------------------------------------------------------
// Words
// ---------------------------------------------------------------------------
/// End of the maximal run of word characters beginning at `i`.
pub open spec fn word_end(s: Seq<char>, i: int) -> int
    decreases s.len() - i when 0 <= i <= s.len()
{
    if i < s.len() && spec_is_word(s[i]) {
        word_end(s, i + 1)
    } else {
        i
    }
}

pub proof fn lemma_word_end_bounds(s: Seq<char>, i: int)
    requires
        0 <= i <= s.len(),
    ensures
        i <= word_end(s, i) <= s.len(),
        forall|j: int| i <= j < word_end(s, i) ==> spec_is_word(s[j]),
        word_end(s, i) < s.len() ==> !spec_is_word(s[word_end(s, i)]),
    decreases s.len() - i,
{
    if i < s.len() && spec_is_word(s[i]) {
        lemma_word_end_bounds(s, i + 1);
    }
}

pub proof fn lemma_word_end_determined(s: Seq<char>, i: int, e: int)
    requires
        0 <= i <= e <= s.len(),
        forall|j: int| i <= j < e ==> spec_is_word(s[j]),
        e < s.len() ==> !spec_is_word(s[e]),
    ensures
        word_end(s, i) == e,
    decreases e - i,
{
    if i < e {
        lemma_word_end_determined(s, i + 1, e);
    }
}

// ---------------------------------------------------------------------------
// Marked words: keywords and Unreal visibility macros
// ---------------------------------------------------------------------------
pub open spec fn is_keyword(w: Seq<char>) -> bool {
    w == "const"@ || w == "typename"@ || w == "struct"@ || w == "class"@ || w == "enum"@ || w
        == "virtual"@ || w == "static"@ || w == "inline"@ || w == "FORCEINLINE"@
}

/// A word of the shape `[A-Z0-9_]+_API`, an Unreal visibility macro.
pub open spec fn is_api_macro(w: Seq<char>) -> bool {
    w.len() >= 5 && (forall|j: int| 0 <= j < w.len() ==> spec_is_upper_word(w[j])) && w.subrange(
        w.len() - 4,
        w.len() as int,
    ) == "_API"@
}

pub open spec fn is_marked_word(w: Seq<char>) -> bool {
    is_keyword(w) || is_api_macro(w)
}

pub fn is_keyword_exec(w: &Vec<char>) -> (r: bool)
    ensures
        r == is_keyword(w@),
{
    eq_chars_lit(w, "const") || eq_chars_lit(w, "typename") || eq_chars_lit(w, "struct")
        || eq_chars_lit(w, "class") || eq_chars_lit(w, "enum") || eq_chars_lit(w, "virtual")
        || eq_chars_lit(w, "static") || eq_chars_lit(w, "inline") || eq_chars_lit(w, "FORCEINLINE")
}

pub fn is_api_macro_exec(w: &Vec<char>) -> (r: bool)
    ensures
        r == is_api_macro(w@),
{
    let n = w.len();
    if n < 5 {
        return false;
    }
    let mut i: usize = 0;
    while i < n
        invariant
            i <= n,
            w@.len() == n,
            forall|j: int| 0 <= j < i ==> spec_is_upper_word(w@[j]),
        decreases n - i,
    {
        if !is_upper_word(w[i]) {
            return false;
        }
        i += 1;
    }
    let tail = subvec(w, n - 4, n);
    eq_chars_lit(&tail, "_API")
}

pub fn is_marked_word_exec(w: &Vec<char>) -> (r: bool)
    ensures
        r == is_marked_word(w@),
{
    is_keyword_exec(w) || is_api_macro_exec(w)
}

// ---------------------------------------------------------------------------
// Word-boundary-sensitive removal of marked words. A marked occurrence at a
// word boundary is exactly a maximal run of word characters equal to a marked
// word, so removal deletes every such run.
// ---------------------------------------------------------------------------
pub open spec fn remove_marked_from(s: Seq<char>, i: int) -> Seq<char>
    decreases s.len() - i when 0 <= i <= s.len() via remove_marked_from_dec
{
    if i >= s.len() {
        Seq::empty()
    } else if !spec_is_word(s[i]) {
        seq![s[i]] + remove_marked_from(s, i + 1)
    } else {
        let e = word_end(s, i);
        let w = s.subrange(i, e);
        (if is_marked_word(w) {
            Seq::empty()
        } else {
            w
        }) + remove_marked_from(s, e)
    }
}

#[via_fn]
proof fn remove_marked_from_dec(s: Seq<char>, i: int) {
    if 0 <= i < s.len() && spec_is_word(s[i]) {
        lemma_word_end_bounds(s, i);
        assert(word_end(s, i) > i);
    }
}

pub open spec fn remove_marked(s: Seq<char>) -> Seq<char> {
    remove_marked_from(s, 0)
}

pub fn remove_marked_exec(s: &Vec<char>) -> (r: Vec<char>)
    ensures
        r@ == remove_marked(s@),
{
    let n = s.len();
    let mut out: Vec<char> = Vec::new();
    let mut i: usize = 0;
    while i < n
        invariant
            i <= n,
            s@.len() == n,
            remove_marked(s@) == out@ + remove_marked_from(s@, i as int),
        decreases n - i,
    {
        if is_word(s[i]) {
            let mut e: usize = i + 1;
            while e < n && is_word(s[e])
                invariant
                    i < e <= n,
                    s@.len() == n,
                    forall|j: int| i <= j < e ==> spec_is_word(s@[j]),
                decreases n - e,
            {
                e += 1;
            }
            proof {
                lemma_word_end_determined(s@, i as int, e as int);
            }
            let w = subvec(s, i, e);
            let ghost out0 = out@;
            if !is_marked_word_exec(&w) {
                let mut k: usize = i;
                while k < e
                    invariant
                        i <= k <= e <= n,
                        s@.len() == n,
                        out@ =~= out0 + s@.subrange(i as int, k as int),
                    decreases e - k,
                {
                    out.push(s[k]);
                    k += 1;
                }
                proof {
                    assert(out@ =~= out0 + s@.subrange(i as int, e as int));
                }
            }
            proof {
                assert(out@ + remove_marked_from(s@, e as int) =~= remove_marked(s@));
            }
            i = e;
        } else {
            out.push(s[i]);
            proof {
                assert(out@ + remove_marked_from(s@, i as int + 1) =~= remove_marked(s@));
            }
            i += 1;
        }
    }
    proof {
        assert(out@ =~= remove_marked(s@));
    }
    out
}

// ---------------------------------------------------------------------------
// Pointer and reference marks become spaces.
// ---------------------------------------------------------------------------
pub open spec fn unstar_char(c: char) -> char {
    if c == '*' || c == '&' {
        ' '
    } else {
        c
    }
}

pub open spec fn unstar(s: Seq<char>) -> Seq<char> {
    s.map_values(|c: char| unstar_char(c))
}

pub fn unstar_exec(s: &Vec<char>) -> (r: Vec<char>)
    ensures
        r@ == unstar(s@),
{
    let n = s.len();
    let mut r: Vec<char> = Vec::new();
    let mut i: usize = 0;
    while i < n
        invariant
            i <= n,
            s@.len() == n,
            r@ =~= unstar(s@).subrange(0, i as int),
        decreases n - i,
    {
        let c = s[i];
        if c == '*' || c == '&' {
            r.push(' ');
        } else {
            r.push(c);
        }
        proof {
            assert(r@ =~= unstar(s@).subrange(0, i as int + 1));
        }
        i += 1;
    }
    proof {
        assert(r@ =~= unstar(s@));
    }
    r
}

// ---------------------------------------------------------------------------
// Last whitespace-separated token.
// ---------------------------------------------------------------------------
/// Length of `s` with trailing whitespace dropped.
pub open spec fn rstrip_end(s: Seq<char>) -> int
    decreases s.len(),
{
    if s.len() > 0 && spec_is_ws(s.last()) {
        rstrip_end(s.drop_last())
    } else {
        s.len() as int
    }
}

/// Start of the run of non-whitespace characters ending at `e`.
pub open spec fn tok_start(s: Seq<char>, e: int) -> int
    decreases e when 0 <= e <= s.len()
{
    if e <= 0 {
        0
    } else if spec_is_ws(s[e - 1]) {
        e
    } else {
        tok_start(s, e - 1)
    }
}

pub open spec fn last_token(s: Seq<char>) -> Seq<char> {
    s.subrange(tok_start(s, rstrip_end(s)), rstrip_end(s))
}

pub proof fn lemma_rstrip_determined(s: Seq<char>, e: int)
    requires
        0 <= e <= s.len(),
        forall|j: int| e <= j < s.len() ==> spec_is_ws(s[j]),
        e > 0 ==> !spec_is_ws(s[e - 1]),
    ensures
        rstrip_end(s) == e,
    decreases s.len(),
{
    if s.len() > 0 && spec_is_ws(s.last()) {
        assert(e < s.len());
        assert forall|j: int| e <= j < s.drop_last().len() implies spec_is_ws(s.drop_last()[j]) by {
            assert(s.drop_last()[j] == s[j]);
        }
        if e > 0 {
            assert(s.drop_last()[e - 1] == s[e - 1]);
        }
        lemma_rstrip_determined(s.drop_last(), e);
    } else {
        if s.len() > 0 && e < s.len() {
            assert(spec_is_ws(s[s.len() - 1]));
            assert(false);
        }
    }
}

pub proof fn lemma_tok_start_props(s: Seq<char>, e: int)
    requires
        0 <= e <= s.len(),
    ensures
        0 <= tok_start(s, e) <= e,
        forall|j: int| tok_start(s, e) <= j < e ==> !spec_is_ws(s[j]),
        tok_start(s, e) > 0 ==> spec_is_ws(s[tok_start(s, e) - 1]),
    decreases e,
{
    if e > 0 && !spec_is_ws(s[e - 1]) {
        lemma_tok_start_props(s, e - 1);
    }
}

pub fn last_token_exec(s: &Vec<char>) -> (r: Vec<char>)
    ensures
        r@ == last_token(s@),
{
    let n = s.len();
    let mut e: usize = n;
    while e > 0 && is_ws(s[e - 1])
        invariant
            e <= n,
            s@.len() == n,
            forall|j: int| e <= j < n ==> spec_is_ws(s@[j]),
        decreases e,
    {
        e -= 1;
    }
    proof {
        lemma_rstrip_determined(s@, e as int);
    }
    let mut k: usize = e;
    while k > 0 && !is_ws(s[k - 1])
        invariant
            k <= e,
            s@.len() == n,
            e <= n,
            forall|j: int| k <= j < e ==> !spec_is_ws(s@[j]),
            tok_start(s@, e as int) == tok_start(s@, k as int),
        decreases k,
    {
        k -= 1;
    }
    proof {
        assert(tok_start(s@, k as int) == k as int);
    }
    subvec(s, k, e)
}

// ---------------------------------------------------------------------------
// Last `::`-separated segment, scanning left to right without overlap.
// ---------------------------------------------------------------------------
pub open spec fn contains_sep(s: Seq<char>) -> bool
    decreases s.len(),
{
    s.len() >= 2 && ((s[0] == ':' && s[1] == ':') || contains_sep(s.drop_first()))
}

pub open spec fn last_seg(s: Seq<char>) -> Seq<char>
    decreases s.len(),
{
    if !contains_sep(s) {
        s
    } else if s[0] == ':' && s[1] == ':' {
        last_seg(s.skip(2))
    } else {
        last_seg(s.drop_first())
    }
}

pub proof fn lemma_no_sep(s: Seq<char>)
    requires
        forall|j: int| 0 <= j && j + 1 < s.len() ==> !(#[trigger] s[j] == ':' && s[j + 1] == ':'),
    ensures
        !contains_sep(s),
    decreases s.len(),
{
    if s.len() >= 2 {
        assert forall|j: int|
            0 <= j && j + 1 < s.drop_first().len() implies !(#[trigger] s.drop_first()[j] == ':'
            && s.drop_first()[j + 1] == ':') by {
            assert(s.drop_first()[j] == s[j + 1] && s.drop_first()[j + 1] == s[j + 2]);
        }
        lemma_no_sep(s.drop_first());
    }
}

pub fn last_seg_exec(s: &Vec<char>) -> (r: Vec<char>)
    ensures
        r@ == last_seg(s@),
{
    let n = s.len();
    proof {
        assert(s@.skip(0) =~= s@);
    }
    let mut start: usize = 0;
    let mut i: usize = 0;
    while i < n && i + 1 < n
        invariant
            start <= i <= n,
            s@.len() == n,
            contains_sep(s@.skip(i as int)) ==> last_seg(s@) == last_seg(s@.skip(i as int)),
            !contains_sep(s@.skip(i as int)) ==> last_seg(s@) == s@.skip(start as int),
        decreases n - i,
    {
        if s[i] == ':' && s[i + 1] == ':' {
            proof {
                let u = s@.skip(i as int);
                assert(u[0] == ':' && u[1] == ':');
                assert(contains_sep(u));
                assert(u.skip(2) =~= s@.skip(i as int + 2));
                assert(last_seg(s@) == last_seg(s@.skip(i as int + 2)));
                if !contains_sep(s@.skip(i as int + 2)) {
                    assert(last_seg(s@.skip(i as int + 2)) == s@.skip(i as int + 2));
                }
            }
            i += 2;
            start = i;
        } else {
            proof {
                let u = s@.skip(i as int);
                assert(u.drop_first() =~= s@.skip(i as int + 1));
                if contains_sep(u) {
                    assert(!(u[0] == ':' && u[1] == ':'));
                    assert(contains_sep(u.drop_first()));
                    assert(last_seg(u) == last_seg(u.drop_first()));
                } else {
                    if contains_sep(s@.skip(i as int + 1)) {
                        assert(contains_sep(u));
                    }
                }
            }
            i += 1;
        }
    }
    proof {
        let u = s@.skip(i as int);
        assert(u.len() <= 1);
        assert(!contains_sep(u));
        assert(last_seg(s@) == s@.skip(start as int));
        assert(s@.skip(start as int) =~= s@.subrange(start as int, n as int));
    }
    subvec(s, start, n)
}

// ---------------------------------------------------------------------------
// The cleaner itself.
// ---------------------------------------------------------------------------
pub open spec fn is_unreal_wrapper(w: Seq<char>) -> bool {
    w == "TObjectPtr"@ || w == "TSharedPtr"@ || w == "TUniquePtr"@ || w == "TWeakObjectPtr"@ || w
        == "TSubclassOf"@ || w == "TSoftObjectPtr"@ || w == "TSoftClassPtr"@ || w == "TEnumAsByte"@
}

pub fn is_unreal_wrapper_exec(w: &Vec<char>) -> (r: bool)
    ensures
        r == is_unreal_wrapper(w@),
{
    eq_chars_lit(w, "TObjectPtr") || eq_chars_lit(w, "TSharedPtr") || eq_chars_lit(w, "TUniquePtr")
        || eq_chars_lit(w, "TWeakObjectPtr") || eq_chars_lit(w, "TSubclassOf") || eq_chars_lit(
        w,
        "TSoftObjectPtr",
    ) || eq_chars_lit(w, "TSoftClassPtr") || eq_chars_lit(w, "TEnumAsByte")
}

/// Keyword removal, pointer-mark erasure, and token selection: the part of
/// cleaning that runs after template arguments are handled.
pub open spec fn spec_strip(s: Seq<char>) -> Seq<char> {
    last_seg(last_token(unstar(remove_marked(s))))
}

/// The cleaned form of a raw type string: trim; peel a known Unreal wrapper's
/// template argument (recursively) or drop other template arguments; remove
/// keywords and visibility macros at word boundaries; turn `*` and `&` into
/// spaces; keep the last whitespace token's last `::` segment.
pub open spec fn spec_clean(raw: Seq<char>) -> Seq<char>
    decreases raw.len() via spec_clean_dec
{
    let s = spec_trim(raw);
    let lt = first_idx(s, '<');
    let gt = last_idx(s, '>');
    if lt < s.len() && lt < gt {
        let w = spec_trim(s.subrange(0, lt));
        if is_unreal_wrapper(w) {
            spec_clean(s.subrange(lt + 1, gt))
        } else {
            spec_strip(w)
        }
    } else {
        spec_strip(s)
    }
}

#[via_fn]
proof fn spec_clean_dec(raw: Seq<char>) {
    lemma_trim_len(raw);
    let s = spec_trim(raw);
    lemma_first_idx_props(s, '<');
    lemma_last_idx_props(s, '>');
}

fn strip_exec(s: &Vec<char>) -> (r: Vec<char>)
    ensures
        r@ == spec_strip(s@),
{
    let a = remove_marked_exec(s);
    let b = unstar_exec(&a);
    let c = last_token_exec(&b);
    last_seg_exec(&c)
}

/// Cleans a raw type string to a bare type name.
pub fn extract_clean_type(raw: &Vec<char>) -> (r: Vec<char>)
    ensures
        r@ == spec_clean(raw@),
    decreases raw@.len(),
{
    let s = trim_vec(raw);
    proof {
        lemma_trim_len(raw@);
        lemma_first_idx_props(s@, '<');
        lemma_last_idx_props(s@, '>');
    }
    let lt = find_first(&s, '<');
    let gt_opt = find_last(&s, '>');
    if lt < s.len() {
        if let Some(gt) = gt_opt {
            if lt < gt {
                let head = subvec(&s, 0, lt);
                let w = trim_vec(&head);
                if is_unreal_wrapper_exec(&w) {
                    let inner = subvec(&s, lt + 1, gt);
                    return extract_clean_type(&inner);
                } else {
                    return strip_exec(&w);
                }
            }
        }
    }
    strip_exec(&s)
}

// ---------------------------------------------------------------------------
// Laws of the cleaner
// ---------------------------------------------------------------------------
/// A bare type name: a nonempty run of word characters that is neither a
/// removed keyword nor a visibility macro. Cleaned output for ordinary
/// class names has this shape.
pub open spec fn bare_type_name(t: Seq<char>) -> bool {
    t.len() > 0 && (forall|j: int| 0 <= j < t.len() ==> spec_is_word(t[j])) && !is_marked_word(t)
}

/// Cleaning leaves a bare type name unchanged. In particular cleaning is
/// idempotent on every raw string whose cleaned form is a bare type name.
pub proof fn lemma_clean_bare(t: Seq<char>)
    requires
        bare_type_name(t),
    ensures
        spec_clean(t) == t,
{
    assert forall|j: int| 0 <= j < t.len() implies !spec_is_ws(t[j]) by {
        assert(spec_is_word(t[j]));
    }
    lemma_trim_no_ws(t);
    assert(spec_trim(t) == t);
    lemma_first_idx_determined(t, '<', t.len() as int);
    // keyword removal: the whole of `t` is one unmarked word
    lemma_word_end_determined(t, 0, t.len() as int);
    assert(t.subrange(0, t.len() as int) =~= t);
    assert(remove_marked_from(t, t.len() as int) == Seq::<char>::empty());
    assert(remove_marked(t) =~= t);
    // no pointer marks
    assert(unstar(t) =~= t);
    // one token
    lemma_rstrip_determined(t, t.len() as int);
    lemma_tok_start_props(t, t.len() as int);
    assert(tok_start(t, t.len() as int) == 0);
    assert(last_token(t) =~= t);
    // one segment
    lemma_no_sep(t);
    assert(last_seg(t) == t);
    assert(spec_strip(t) == t);
}

/// Cleaning is idempotent on every string whose cleaned form is a bare type
/// name — the shape cleaning produces for ordinary class names — so typedef
/// resolutions landing on such names are fixed points of the cleaner.
pub proof fn lemma_clean_idempotent_on_bare(raw: Seq<char>)
    requires
        bare_type_name(spec_clean(raw)),
    ensures
        spec_clean(spec_clean(raw)) == spec_clean(raw),
{
    lemma_clean_bare(spec_clean(raw));
}

/// Peeling an Unreal smart-pointer wrapper: for every wrapper `W` in the
/// peel set and every bare type name `T`, cleaning `W<T>` yields `T`.
pub proof fn lemma_wrapper_peel(w: Seq<char>, t: Seq<char>)
    requires
        is_unreal_wrapper(w),
        bare_type_name(t),
    ensures
        spec_clean(w + seq!['<'] + t + seq!['>']) == t,
{
    assert forall|j: int| 0 <= j < w.len() implies spec_is_word(w[j]) by {
        reveal_strlit("TObjectPtr");
        reveal_strlit("TSharedPtr");
        reveal_strlit("TUniquePtr");
        reveal_strlit("TWeakObjectPtr");
        reveal_strlit("TSubclassOf");
        reveal_strlit("TSoftObjectPtr");
        reveal_strlit("TSoftClassPtr");
        reveal_strlit("TEnumAsByte");
    }
    let s0 = w + seq!['<'] + t + seq!['>'];
    let wl = w.len() as int;
    let n = s0.len() as int;
    assert(n == wl + t.len() + 2);
    assert(s0[wl] == '<');
    assert(s0[n - 1] == '>');
    assert forall|j: int| 0 <= j < n implies !spec_is_ws(s0[j]) by {
        if j < wl {
            assert(s0[j] == w[j]);
        } else if j == wl {
        } else if j < n - 1 {
            assert(s0[j] == t[j - wl - 1]);
        }
    }
    lemma_trim_no_ws(s0);
    assert(spec_trim(s0) == s0);
    lemma_first_idx_determined(s0, '<', wl);
    lemma_last_idx_determined(s0, '>', n - 1);
    assert(first_idx(s0, '<') == wl);
    assert(last_idx(s0, '>') == n - 1);
    assert(wl < n - 1);
    assert(s0.subrange(0, wl) =~= w);
    assert forall|j: int| 0 <= j < w.len() implies !spec_is_ws(w[j]) by {
        assert(spec_is_word(w[j]));
    }
    lemma_trim_no_ws(w);
    assert(spec_trim(s0.subrange(0, wl)) == w);
    assert(s0.subrange(wl + 1, n - 1) =~= t);
    assert(spec_clean(s0) == spec_clean(t));
    lemma_clean_bare(t);
}

} // verus!
