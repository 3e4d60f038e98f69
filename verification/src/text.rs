use vstd::prelude::*;

verus! {

/// Whether `c` has the Unicode `White_Space` property, which is the set of
/// characters that `char::is_whitespace` accepts.
pub open spec fn is_space(c: char) -> bool {
    let u = c as u32;
    ||| 0x09 <= u <= 0x0d
    ||| u == 0x20
    ||| u == 0x85
    ||| u == 0xa0
    ||| u == 0x1680
    ||| 0x2000 <= u <= 0x200a
    ||| u == 0x2028
    ||| u == 0x2029
    ||| u == 0x202f
    ||| u == 0x205f
    ||| u == 0x3000
}

/// Executable test for `is_space`.
pub fn is_space_char(c: char) -> (r: bool)
    ensures
        r == is_space(c),
{
    let u = c as u32;
    (0x09 <= u && u <= 0x0d) || u == 0x20 || u == 0x85 || u == 0xa0 || u == 0x1680 || (0x2000
        <= u && u <= 0x200a) || u == 0x2028 || u == 0x2029 || u == 0x202f || u == 0x205f || u
        == 0x3000
}

/// The first index at or after `i` that does not hold a space (or the length).
pub open spec fn skip_spaces(s: Seq<char>, i: int) -> int
    decreases s.len() - i,
{
    if 0 <= i < s.len() && is_space(s[i]) {
        skip_spaces(s, i + 1)
    } else {
        i
    }
}

/// The first index at or after `i` that holds a space (or the length).
pub open spec fn skip_word(s: Seq<char>, i: int) -> int
    decreases s.len() - i,
{
    if 0 <= i < s.len() && !is_space(s[i]) {
        skip_word(s, i + 1)
    } else {
        i
    }
}

/// The end of `s.take(j)` once its trailing spaces are removed.
pub open spec fn rskip_spaces(s: Seq<char>, j: int) -> int
    decreases j,
{
    if 0 < j <= s.len() && is_space(s[j - 1]) {
        rskip_spaces(s, j - 1)
    } else {
        j
    }
}

/// `s` without its leading and trailing spaces (what `str::trim` returns).
pub open spec fn trimmed(s: Seq<char>) -> Seq<char> {
    let a = skip_spaces(s, 0);
    if a >= s.len() {
        Seq::empty()
    } else {
        s.subrange(a, rskip_spaces(s, s.len() as int))
    }
}

/// The maximal runs of non-space characters of `s` from index `i` on, in order
/// (what `str::split_whitespace` yields).
pub open spec fn words_from(s: Seq<char>, i: int) -> Seq<Seq<char>>
    decreases s.len() - i,
{
    let a = skip_spaces(s, i);
    if i < 0 || a >= s.len() {
        Seq::empty()
    } else {
        proof {
            lemma_skip_spaces_bounds(s, i);
            lemma_skip_word_bounds(s, a);
        }
        seq![s.subrange(a, skip_word(s, a))] + words_from(s, skip_word(s, a))
    }
}

/// The index of the first `c` at or after `i`.
pub open spec fn find_char_from(s: Seq<char>, c: char, i: int) -> Option<int>
    decreases s.len() - i,
{
    if i < 0 || i >= s.len() {
        None
    } else if s[i] == c {
        Some(i)
    } else {
        find_char_from(s, c, i + 1)
    }
}

/// `t` without one trailing carriage return.
pub open spec fn strip_cr(t: Seq<char>) -> Seq<char> {
    if t.len() > 0 && t.last() == '\r' {
        t.drop_last()
    } else {
        t
    }
}

/// The lines of `s` from index `i` on (what `str::lines` yields): split at
/// `'\n'`, each line without its `"\n"` or `"\r\n"` ending; a final line
/// ending adds no empty line.
pub open spec fn lines_from(s: Seq<char>, i: int) -> Seq<Seq<char>>
    decreases s.len() - i,
{
    if i < 0 || i >= s.len() {
        Seq::empty()
    } else {
        match find_char_from(s, '\n', i) {
            None => seq![s.subrange(i, s.len() as int)],
            Some(k) => {
                proof {
                    lemma_find_char_from(s, '\n', i);
                }
                seq![strip_cr(s.subrange(i, k))] + lines_from(s, k + 1)
            },
        }
    }
}

/// Whether `p` occurs in `s` at index `i`.
pub open spec fn occurs_at(s: Seq<char>, p: Seq<char>, i: int) -> bool {
    0 <= i && i + p.len() <= s.len() && s.subrange(i, i + p.len()) == p
}

/// The index of the first occurrence of `p` in `s` at or after `i`.
pub open spec fn find_from(s: Seq<char>, p: Seq<char>, i: int) -> Option<int>
    decreases s.len() + 1 - i,
{
    if i < 0 || i + p.len() > s.len() {
        None
    } else if occurs_at(s, p, i) {
        Some(i)
    } else {
        find_from(s, p, i + 1)
    }
}

pub proof fn lemma_skip_spaces_bounds(s: Seq<char>, i: int)
    requires
        0 <= i <= s.len(),
    ensures
        i <= skip_spaces(s, i) <= s.len(),
        skip_spaces(s, i) < s.len() ==> !is_space(s[skip_spaces(s, i)]),
        forall|k: int| i <= k < skip_spaces(s, i) ==> is_space(#[trigger] s[k]),
    decreases s.len() - i,
{
    if i < s.len() && is_space(s[i]) {
        lemma_skip_spaces_bounds(s, i + 1);
    }
}

pub proof fn lemma_skip_word_bounds(s: Seq<char>, i: int)
    requires
        0 <= i <= s.len(),
    ensures
        i <= skip_word(s, i) <= s.len(),
        skip_word(s, i) < s.len() ==> is_space(s[skip_word(s, i)]),
        forall|k: int| i <= k < skip_word(s, i) ==> !is_space(#[trigger] s[k]),
    decreases s.len() - i,
{
    if i < s.len() && !is_space(s[i]) {
        lemma_skip_word_bounds(s, i + 1);
    }
}

pub proof fn lemma_find_char_from(s: Seq<char>, c: char, i: int)
    requires
        0 <= i,
    ensures
        match find_char_from(s, c, i) {
            Some(k) => i <= k < s.len() && s[k] == c && forall|j: int|
                i <= j < k ==> #[trigger] s[j] != c,
            None => forall|j: int| i <= j < s.len() ==> #[trigger] s[j] != c,
        },
    decreases s.len() - i,
{
    if i < s.len() && s[i] != c {
        lemma_find_char_from(s, c, i + 1);
    }
}

/// Appends `c` to `s` (`String::push`).
#[verifier::external_body]
pub(crate) fn push_char(s: &mut String, c: char)
    ensures
        final(s)@ == old(s)@.push(c),
{
    s.push(c);
}

/// Whether two strings hold the same characters.
pub fn same_text(a: &str, b: &str) -> (r: bool)
    ensures
        r == (a@ == b@),
{
    let x = chars_of(a);
    let y = chars_of(b);
    if x.len() != y.len() {
        return false;
    }
    let mut i: usize = 0;
    while i < x.len()
        invariant
            x@ == a@,
            y@ == b@,
            x.len() == y.len(),
            i <= x.len(),
            forall|k: int| 0 <= k < i ==> x@[k] == y@[k],
        decreases x.len() - i,
    {
        if x[i] != y[i] {
            return false;
        }
        i = i + 1;
    }
    assert(x@ =~= y@);
    true
}

/// The characters of `s`, in order.
pub fn chars_of(s: &str) -> (v: Vec<char>)
    ensures
        v@ == s@,
{
    let mut v: Vec<char> = Vec::new();
    for c in it: s.chars()
        invariant
            v@ == it.seq().take(it.index() as int),
    {
        v.push(c);
    }
    v
}

/// A string holding `v[a..b]`.
pub fn string_of_range(v: &Vec<char>, a: usize, b: usize) -> (r: String)
    requires
        a <= b <= v.len(),
    ensures
        r@ == v@.subrange(a as int, b as int),
{
    let mut r = String::new();
    let mut i = a;
    while i < b
        invariant
            a <= i <= b <= v.len(),
            r@ == v@.subrange(a as int, i as int),
        decreases b - i,
    {
        push_char(&mut r, v[i]);
        i = i + 1;
        assert(r@ == v@.subrange(a as int, i as int));
    }
    r
}

/// `skip_spaces(v, i)`.
pub fn skip_spaces_exec(v: &Vec<char>, i: usize, end: usize) -> (r: usize)
    requires
        i <= end == v.len(),
    ensures
        r == skip_spaces(v@, i as int),
{
    let mut j = i;
    while j < end && is_space_char(v[j])
        invariant
            i <= j <= end == v.len(),
            skip_spaces(v@, j as int) == skip_spaces(v@, i as int),
        decreases end - j,
    {
        j = j + 1;
    }
    j
}

/// `skip_word(v, i)`.
pub fn skip_word_exec(v: &Vec<char>, i: usize, end: usize) -> (r: usize)
    requires
        i <= end == v.len(),
    ensures
        r == skip_word(v@, i as int),
{
    let mut j = i;
    while j < end && !is_space_char(v[j])
        invariant
            i <= j <= end == v.len(),
            skip_word(v@, j as int) == skip_word(v@, i as int),
        decreases end - j,
    {
        j = j + 1;
    }
    j
}

/// `find_char_from(v, c, i)`.
pub fn find_char_exec(v: &Vec<char>, c: char, i: usize) -> (r: Option<usize>)
    requires
        i <= v.len(),
    ensures
        match r {
            Some(k) => find_char_from(v@, c, i as int) == Some(k as int),
            None => find_char_from(v@, c, i as int) is None,
        },
{
    let mut j = i;
    while j < v.len()
        invariant
            i <= j <= v.len(),
            find_char_from(v@, c, j as int) == find_char_from(v@, c, i as int),
        decreases v.len() - j,
    {
        if v[j] == c {
            return Some(j);
        }
        j = j + 1;
    }
    None
}

/// A string holding `trimmed(v[a..b])`.
pub fn trimmed_range(v: &Vec<char>, a: usize, b: usize) -> (r: String)
    requires
        a <= b <= v.len(),
    ensures
        r@ == trimmed(v@.subrange(a as int, b as int)),
{
    let ghost s = v@.subrange(a as int, b as int);
    let mut i = a;
    while i < b && is_space_char(v[i])
        invariant
            a <= i <= b <= v.len(),
            s == v@.subrange(a as int, b as int),
            skip_spaces(s, (i - a) as int) == skip_spaces(s, 0),
        decreases b - i,
    {
        i = i + 1;
    }
    if i == b {
        return String::new();
    }
    let mut j = b;
    while j > i && is_space_char(v[j - 1])
        invariant
            a <= i < b,
            i < j <= b <= v.len(),
            s == v@.subrange(a as int, b as int),
            !is_space(v@[i as int]),
            rskip_spaces(s, (j - a) as int) == rskip_spaces(s, s.len() as int),
        decreases j,
    {
        j = j - 1;
    }
    proof {
        assert(!is_space(s[(i - a) as int]));
        assert(skip_spaces(s, 0) == (i - a) as int);
        assert(s[(j - a) as int - 1] == v@[j - 1]);
        assert(rskip_spaces(s, s.len() as int) == (j - a) as int);
        assert(s.subrange((i - a) as int, (j - a) as int) == v@.subrange(i as int, j as int));
    }
    string_of_range(v, i, j)
}

} // verus!

verus! {

/// What `str::to_lowercase` returns for a string holding `s`: a function of
/// the characters alone (Unicode's default case mapping).
pub uninterp spec fn lowercase_of(s: Seq<char>) -> Seq<char>;

/// The lower-case form of `s` (`str::to_lowercase`).
#[verifier::external_body]
pub(crate) fn lowercase(s: &str) -> (r: String)
    ensures
        r@ == lowercase_of(s@),
{
    s.to_lowercase()
}

/// A vector holding `v[a..b]`.
pub fn sub_vec(v: &Vec<char>, a: usize, b: usize) -> (r: Vec<char>)
    requires
        a <= b <= v.len(),
    ensures
        r@ == v@.subrange(a as int, b as int),
{
    let mut r: Vec<char> = Vec::new();
    let mut i = a;
    while i < b
        invariant
            a <= i <= b <= v.len(),
            r@ == v@.subrange(a as int, i as int),
        decreases b - i,
    {
        r.push(v[i]);
        i = i + 1;
        assert(r@ == v@.subrange(a as int, i as int));
    }
    r
}

/// The line of `v` that starts at `i`: it spans `v[i..end]` and the next line
/// starts at `next`.
pub fn line_at(v: &Vec<char>, i: usize) -> (r: (usize, usize))
    requires
        i < v.len(),
    ensures
        i <= r.0 <= v.len(),
        i < r.1 <= v.len(),
        r.0 <= r.1,
        lines_from(v@, i as int) == seq![v@.subrange(i as int, r.0 as int)] + lines_from(
            v@,
            r.1 as int,
        ),
{
    let found = find_char_exec(v, '\n', i);
    proof {
        lemma_find_char_from(v@, '\n', i as int);
    }
    match found {
        None => {
            let ghost rest = lines_from(v@, v.len() as int);
            assert(rest == Seq::<Seq<char>>::empty());
            assert(seq![v@.subrange(i as int, v.len() as int)] + rest == seq![
                v@.subrange(i as int, v.len() as int),
            ]);
            (v.len(), v.len())
        },
        Some(k) => {
            let end = if k > i && v[k - 1] == '\r' {
                k - 1
            } else {
                k
            };
            assert(strip_cr(v@.subrange(i as int, k as int)) == v@.subrange(i as int, end as int));
            (end, k + 1)
        },
    }
}

} // verus!

verus! {

/// What `{:?}` writes for a string holding `s`: `s` quoted, with escapes.
pub uninterp spec fn str_debug(s: Seq<char>) -> Seq<char>;

/// What `{:?}` writes for the character `c`: `c` in single quotes, with
/// escapes.
pub uninterp spec fn char_debug(c: char) -> Seq<char>;

/// The `Debug` text of `s` (`format!("{:?}", s)`). The contract names the
/// result only: the escaping rules are not restated here.
#[verifier::external_body]
pub(crate) fn debug_str(s: &str) -> (r: String)
    ensures
        r@ == str_debug(s@),
{
    format!("{:?}", s)
}

/// The `Debug` text of `c` (`format!("{:?}", c)`). The contract names the
/// result only: the escaping rules are not restated here.
#[verifier::external_body]
pub(crate) fn debug_char(c: char) -> (r: String)
    ensures
        r@ == char_debug(c),
{
    format!("{:?}", c)
}

} // verus!

verus! {

pub proof fn lemma_skip_word_run(s: Seq<char>, i: int, j: int)
    requires
        0 <= i <= j <= s.len(),
        forall|k: int| i <= k < j ==> !is_space(#[trigger] s[k]),
        j == s.len() || is_space(s[j]),
    ensures
        skip_word(s, i) == j,
    decreases j - i,
{
    if i < j {
        lemma_skip_word_run(s, i + 1, j);
    }
}

pub proof fn lemma_skip_spaces_run(s: Seq<char>, i: int, j: int)
    requires
        0 <= i <= j <= s.len(),
        forall|k: int| i <= k < j ==> is_space(#[trigger] s[k]),
        j == s.len() || !is_space(s[j]),
    ensures
        skip_spaces(s, i) == j,
    decreases j - i,
{
    if i < j {
        lemma_skip_spaces_run(s, i + 1, j);
    }
}

pub proof fn lemma_find_char_none(s: Seq<char>, c: char, i: int)
    requires
        0 <= i,
        forall|k: int| i <= k < s.len() ==> #[trigger] s[k] != c,
    ensures
        find_char_from(s, c, i) is None,
    decreases s.len() - i,
{
    if i < s.len() {
        lemma_find_char_none(s, c, i + 1);
    }
}

pub proof fn lemma_find_from_first(s: Seq<char>, p: Seq<char>, i: int, m: int)
    requires
        0 <= i <= m,
        occurs_at(s, p, m),
        forall|k: int| i <= k < m ==> !#[trigger] occurs_at(s, p, k),
    ensures
        find_from(s, p, i) == Some(m),
    decreases m - i,
{
    if i < m {
        lemma_find_from_first(s, p, i + 1, m);
    }
}

pub proof fn lemma_find_from_none(s: Seq<char>, p: Seq<char>, i: int)
    requires
        0 <= i,
        forall|k: int| i <= k ==> !#[trigger] occurs_at(s, p, k),
    ensures
        find_from(s, p, i) is None,
    decreases s.len() + 1 - i,
{
    if i + p.len() <= s.len() {
        lemma_find_from_none(s, p, i + 1);
    }
}

} // verus!

verus! {

pub proof fn lemma_rskip_spaces_bounds(s: Seq<char>, j: int)
    requires
        0 <= j <= s.len(),
    ensures
        0 <= rskip_spaces(s, j) <= j,
        rskip_spaces(s, j) > 0 ==> !is_space(s[rskip_spaces(s, j) - 1]),
        forall|k: int| rskip_spaces(s, j) <= k < j ==> is_space(#[trigger] s[k]),
    decreases j,
{
    if 0 < j && is_space(s[j - 1]) {
        lemma_rskip_spaces_bounds(s, j - 1);
    }
}

pub proof fn lemma_rskip_spaces_run(s: Seq<char>, i: int, j: int)
    requires
        0 <= i <= j <= s.len(),
        forall|k: int| i <= k < j ==> is_space(#[trigger] s[k]),
        i == 0 || !is_space(s[i - 1]),
    ensures
        rskip_spaces(s, j) == i,
    decreases j - i,
{
    if i < j {
        lemma_rskip_spaces_run(s, i, j - 1);
    }
}

/// `s[a..b]` is `s` without outer white space: everything before `a` and from
/// `b` on is white space, and a non-empty `s[a..b]` starts and ends with a
/// character that is not.
pub open spec fn outer_spaces_at(s: Seq<char>, a: int, b: int) -> bool {
    &&& 0 <= a <= b <= s.len()
    &&& forall|k: int| 0 <= k < a ==> is_space(#[trigger] s[k])
    &&& forall|k: int| b <= k < s.len() ==> is_space(#[trigger] s[k])
    &&& a < b ==> !is_space(s[a]) && !is_space(s[b - 1])
}

/// Trimming keeps a middle part of the text whole and removes only white
/// space around it.
pub proof fn lemma_trimmed_removes_only_outer_spaces(s: Seq<char>)
    ensures
        exists|a: int, b: int| #[trigger] outer_spaces_at(s, a, b) && trimmed(s) == s.subrange(a, b),
{
    lemma_skip_spaces_bounds(s, 0);
    let a = skip_spaces(s, 0);
    let n = s.len() as int;
    if a >= s.len() {
        assert(trimmed(s) =~= s.subrange(n, n));
        assert(outer_spaces_at(s, n, n));
    } else {
        lemma_rskip_spaces_bounds(s, n);
        let b = rskip_spaces(s, n);
        if b <= a {
            assert(is_space(s[a]));
        }
        assert(outer_spaces_at(s, a, b));
        assert(trimmed(s) == s.subrange(a, b));
    }
}

/// Trimming text that is white space, then words whose ends are not white
/// space, then white space, gives exactly those words, inner spaces kept.
pub proof fn lemma_trimmed_keeps_inner_text(lead: Seq<char>, text: Seq<char>, trail: Seq<char>)
    requires
        forall|k: int| 0 <= k < lead.len() ==> is_space(#[trigger] lead[k]),
        forall|k: int| 0 <= k < trail.len() ==> is_space(#[trigger] trail[k]),
        text.len() > 0 ==> !is_space(text[0]) && !is_space(text.last()),
    ensures
        trimmed(lead + text + trail) == text,
{
    let s = lead + text + trail;
    let l = lead.len() as int;
    let m = l + text.len();
    let n = s.len() as int;
    if text.len() == 0 {
        assert forall|k: int| 0 <= k < n implies is_space(#[trigger] s[k]) by {
            if k < l {
                assert(s[k] == lead[k]);
            } else {
                assert(s[k] == trail[k - l]);
            }
        }
        lemma_skip_spaces_run(s, 0, n);
        assert(trimmed(s) =~= text);
    } else {
        assert forall|k: int| 0 <= k < l implies is_space(#[trigger] s[k]) by {
            assert(s[k] == lead[k]);
        }
        assert(s[l] == text[0]);
        lemma_skip_spaces_run(s, 0, l);
        assert forall|k: int| m <= k < n implies is_space(#[trigger] s[k]) by {
            assert(s[k] == trail[k - m]);
        }
        assert(s[m - 1] == text.last());
        lemma_rskip_spaces_run(s, m, n);
        assert(s.subrange(l, m) =~= text);
    }
}

} // verus!
