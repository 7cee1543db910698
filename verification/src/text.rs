//! Text as sequences of characters: trimming, searching and splitting.

use vstd::prelude::*;

verus! {

/// A character with the Unicode property White_Space.
pub open spec fn is_white_space(c: char) -> bool {
    ||| '\u{9}' <= c <= '\u{d}'
    ||| c == ' '
    ||| c == '\u{85}'
    ||| c == '\u{a0}'
    ||| c == '\u{1680}'
    ||| '\u{2000}' <= c <= '\u{200a}'
    ||| c == '\u{2028}'
    ||| c == '\u{2029}'
    ||| c == '\u{202f}'
    ||| c == '\u{205f}'
    ||| c == '\u{3000}'
}

/// `s` without its leading white space.
pub open spec fn trim_start(s: Seq<char>) -> Seq<char>
    decreases s.len(),
{
    if s.len() > 0 && is_white_space(s.first()) {
        trim_start(s.drop_first())
    } else {
        s
    }
}

/// `s` without its trailing white space.
pub open spec fn trim_end(s: Seq<char>) -> Seq<char>
    decreases s.len(),
{
    if s.len() > 0 && is_white_space(s.last()) {
        trim_end(s.drop_last())
    } else {
        s
    }
}

/// `s` without the white space at either end.
pub open spec fn trim(s: Seq<char>) -> Seq<char> {
    trim_end(trim_start(s))
}

/// `s` without the run of `c` that it starts with.
pub open spec fn strip_leading(s: Seq<char>, c: char) -> Seq<char>
    decreases s.len(),
{
    if s.len() > 0 && s.first() == c {
        strip_leading(s.drop_first(), c)
    } else {
        s
    }
}

/// `s` without the run of `c` that it ends with.
pub open spec fn strip_trailing(s: Seq<char>, c: char) -> Seq<char>
    decreases s.len(),
{
    if s.len() > 0 && s.last() == c {
        strip_trailing(s.drop_last(), c)
    } else {
        s
    }
}

/// The first position at which `c` stands in `s`.
pub open spec fn index_of(s: Seq<char>, c: char) -> Option<int>
    decreases s.len(),
{
    if s.len() == 0 {
        None
    } else if s.first() == c {
        Some(0)
    } else {
        match index_of(s.drop_first(), c) {
            Some(i) => Some(i + 1),
            None => None,
        }
    }
}

/// What stands before the first `c` in `s`, and what stands behind it.
pub open spec fn cut(s: Seq<char>, c: char) -> Option<(Seq<char>, Seq<char>)> {
    match index_of(s, c) {
        Some(i) => Some((s.take(i), s.skip(i + 1))),
        None => None,
    }
}

/// The first position at which `pat` stands in `s`.
pub open spec fn index_of_text(s: Seq<char>, pat: Seq<char>) -> Option<int>
    decreases s.len(),
{
    if pat.is_prefix_of(s) {
        Some(0)
    } else if s.len() == 0 {
        None
    } else {
        match index_of_text(s.drop_first(), pat) {
            Some(i) => Some(i + 1),
            None => None,
        }
    }
}

/// What stands before the first `pat` in `s`, and what stands behind it.
pub open spec fn cut_text(s: Seq<char>, pat: Seq<char>) -> Option<(Seq<char>, Seq<char>)> {
    match index_of_text(s, pat) {
        Some(i) => Some((s.take(i), s.skip(i + pat.len()))),
        None => None,
    }
}

/// The stretches of `s` between the places where `c` stands: one more than there are such places.
pub open spec fn split(s: Seq<char>, c: char) -> Seq<Seq<char>>
    decreases s.len(),
{
    if s.len() == 0 {
        seq![s]
    } else if s.last() == c {
        split(s.drop_last(), c).push(Seq::empty())
    } else {
        let parts = split(s.drop_last(), c);
        parts.drop_last().push(parts.last().push(s.last()))
    }
}

/// `c` with an ASCII capital letter made small.
pub open spec fn ascii_lower(c: char) -> char {
    if 'A' <= c <= 'Z' {
        ((c as u32) + 32) as char
    } else {
        c
    }
}

/// `s` with its ASCII capital letters made small.
pub open spec fn ascii_lowercase(s: Seq<char>) -> Seq<char> {
    s.map_values(|c: char| ascii_lower(c))
}

/// Whether `c` has the Unicode property White_Space.
pub fn white_space(c: char) -> (b: bool)
    ensures
        b == is_white_space(c),
{
    ('\u{9}' <= c && c <= '\u{d}') || c == ' ' || c == '\u{85}' || c == '\u{a0}' || c == '\u{1680}'
        || ('\u{2000}' <= c && c <= '\u{200a}') || c == '\u{2028}' || c == '\u{2029}' || c
        == '\u{202f}' || c == '\u{205f}' || c == '\u{3000}'
}

/// The characters of `s`.
pub fn chars_of(s: &str) -> (chars: Vec<char>)
    ensures
        chars@ == s@,
{
    let mut chars: Vec<char> = Vec::new();
    for c in it: s.chars()
        invariant
            chars@ == it.seq().take(it.index() as int),
            it.seq() == s@,
    {
        chars.push(c);
    }
    chars
}

/// `s` without the white space at either end.
pub fn trimmed(s: &str) -> (t: &str)
    ensures
        t@ == trim(s@),
{
    let chars = chars_of(s);
    let n: usize = chars.len();
    let mut i: usize = 0;
    assert(s@.skip(0) == s@);
    while i < n && white_space(chars[i])
        invariant
            chars@ == s@,
            n == s@.len(),
            i <= n,
            trim_start(s@) == trim_start(s@.skip(i as int)),
        decreases n - i,
    {
        assert(s@.skip(i as int).drop_first() == s@.skip(i + 1));
        i += 1;
    }
    let mut j: usize = n;
    assert(s@.subrange(i as int, n as int) == s@.skip(i as int));
    assert(trim_start(s@) == s@.skip(i as int));
    while i < j && white_space(chars[j - 1])
        invariant
            chars@ == s@,
            n == s@.len(),
            i <= j <= n,
            trim_end(s@.skip(i as int)) == trim_end(s@.subrange(i as int, j as int)),
        decreases j,
    {
        assert(s@.subrange(i as int, j as int).drop_last() == s@.subrange(i as int, j - 1));
        j -= 1;
    }
    s.substring_char(i, j)
}

/// `s` without the run of `c` that it starts with.
pub fn without_leading(s: &str, c: char) -> (t: &str)
    ensures
        t@ == strip_leading(s@, c),
{
    let chars = chars_of(s);
    let n: usize = chars.len();
    let mut i: usize = 0;
    assert(s@.skip(0) == s@);
    while i < n && chars[i] == c
        invariant
            chars@ == s@,
            n == s@.len(),
            i <= n,
            strip_leading(s@, c) == strip_leading(s@.skip(i as int), c),
        decreases n - i,
    {
        assert(s@.skip(i as int).drop_first() == s@.skip(i + 1));
        i += 1;
    }
    assert(s@.subrange(i as int, n as int) == s@.skip(i as int));
    s.substring_char(i, n)
}

/// `s` without the run of `c` that it ends with.
pub fn without_trailing(s: &str, c: char) -> (t: &str)
    ensures
        t@ == strip_trailing(s@, c),
{
    let chars = chars_of(s);
    let n: usize = chars.len();
    let mut j: usize = n;
    assert(s@.take(n as int) == s@);
    while 0 < j && chars[j - 1] == c
        invariant
            chars@ == s@,
            n == s@.len(),
            j <= n,
            strip_trailing(s@, c) == strip_trailing(s@.take(j as int), c),
        decreases j,
    {
        assert(s@.take(j as int).drop_last() == s@.take(j - 1));
        j -= 1;
    }
    assert(s@.subrange(0, j as int) == s@.take(j as int));
    s.substring_char(0, j)
}

/// The first position at which `c` stands in `s`, counted in characters.
pub fn find_char(s: &str, c: char) -> (found: Option<usize>)
    ensures
        match found {
            Some(i) => i < s@.len() && index_of(s@, c) == Some(i as int),
            None => index_of(s@, c) is None,
        },
{
    let chars = chars_of(s);
    let n: usize = chars.len();
    let mut i: usize = 0;
    assert(s@.skip(0) == s@);
    while i < n
        invariant
            chars@ == s@,
            n == s@.len(),
            i <= n,
            index_of(s@, c) == (match index_of(s@.skip(i as int), c) {
                Some(k) => Some(k + i),
                None => None,
            }),
        decreases n - i,
    {
        if chars[i] == c {
            return Some(i);
        }
        assert(s@.skip(i as int).drop_first() == s@.skip(i + 1));
        i += 1;
    }
    None
}

/// What stands before the first `c` in `s`, and what stands behind it.
pub fn cut_at(s: &str, c: char) -> (parts: Option<(&str, &str)>)
    ensures
        match parts {
            Some((a, b)) => cut(s@, c) == Some((a@, b@)),
            None => cut(s@, c) is None,
        },
{
    match find_char(s, c) {
        Some(i) => {
            let n: usize = s.unicode_len();
            assert(s@.subrange(0, i as int) == s@.take(i as int));
            assert(s@.subrange(i + 1, n as int) == s@.skip(i + 1));
            Some((s.substring_char(0, i), s.substring_char(i + 1, n)))
        },
        None => None,
    }
}

/// Whether the characters of `chars` from `from` on start with `pat`.
fn stands_at(chars: &Vec<char>, from: usize, pat: &Vec<char>) -> (b: bool)
    requires
        from <= chars@.len(),
    ensures
        b == pat@.is_prefix_of(chars@.skip(from as int)),
{
    let n: usize = chars.len();
    if n - from < pat.len() {
        return false;
    }
    let mut k: usize = 0;
    while k < pat.len()
        invariant
            n == chars@.len(),
            from + pat@.len() <= n,
            k <= pat@.len(),
            forall|j: int| 0 <= j < k ==> #[trigger] pat@[j] == chars@[from + j],
        decreases pat@.len() - k,
    {
        if chars[from + k] != pat[k] {
            assert(chars@.skip(from as int).subrange(0, pat@.len() as int)[k as int] != pat@[k as int]);
            return false;
        }
        k += 1;
    }
    assert(chars@.skip(from as int).subrange(0, pat@.len() as int) =~= pat@);
    true
}

/// What stands before the first `pat` in `s`, and what stands behind it.
pub fn cut_at_text<'a>(s: &'a str, pat: &str) -> (parts: Option<(&'a str, &'a str)>)
    ensures
        match parts {
            Some((a, b)) => cut_text(s@, pat@) == Some((a@, b@)),
            None => cut_text(s@, pat@) is None,
        },
{
    let chars = chars_of(s);
    let pattern = chars_of(pat);
    let n: usize = chars.len();
    let mut i: usize = 0;
    assert(s@.skip(0) == s@);
    loop
        invariant
            chars@ == s@,
            pattern@ == pat@,
            n == s@.len(),
            i <= n,
            index_of_text(s@, pat@) == (match index_of_text(s@.skip(i as int), pat@) {
                Some(k) => Some(k + i),
                None => None,
            }),
        decreases n - i,
    {
        if stands_at(&chars, i, &pattern) {
            let m: usize = pattern.len();
            assert(i + m <= n);
            assert(s@.subrange(0, i as int) == s@.take(i as int));
            assert(s@.subrange(i + m, n as int) == s@.skip(i + m));
            return Some((s.substring_char(0, i), s.substring_char(i + m, n)));
        }
        if i == n {
            return None;
        }
        assert(s@.skip(i as int).drop_first() == s@.skip(i + 1));
        i += 1;
    }
}

/// Whether two texts hold the same characters.
pub fn same_text(a: &str, b: &str) -> (same: bool)
    ensures
        same == (a@ == b@),
{
    let x = chars_of(a);
    let y = chars_of(b);
    if x.len() != y.len() {
        return false;
    }
    let mut i: usize = 0;
    while i < x.len()
        invariant
            x@ == a@,
            y@ == b@,
            x@.len() == y@.len(),
            i <= x@.len(),
            forall|j: int| 0 <= j < i ==> x@[j] == y@[j],
        decreases x@.len() - i,
    {
        if x[i] != y[i] {
            return false;
        }
        i += 1;
    }
    assert(a@ =~= b@);
    true
}

/// `c` with an ASCII capital letter made small.
fn lower(c: char) -> (l: char)
    ensures
        l == ascii_lower(c),
{
    if 'A' <= c && c <= 'Z' {
        ((c as u8) + 32) as char
    } else {
        c
    }
}

/// Whether two texts differ in the case of ASCII letters at most.
pub fn same_text_ignoring_case(a: &str, b: &str) -> (same: bool)
    ensures
        same == (ascii_lowercase(a@) == ascii_lowercase(b@)),
{
    let x = chars_of(a);
    let y = chars_of(b);
    if x.len() != y.len() {
        assert(ascii_lowercase(a@).len() != ascii_lowercase(b@).len());
        return false;
    }
    let mut i: usize = 0;
    while i < x.len()
        invariant
            x@ == a@,
            y@ == b@,
            x@.len() == y@.len(),
            i <= x@.len(),
            forall|j: int| 0 <= j < i ==> ascii_lower(x@[j]) == ascii_lower(y@[j]),
        decreases x@.len() - i,
    {
        if lower(x[i]) != lower(y[i]) {
            assert(ascii_lowercase(a@)[i as int] != ascii_lowercase(b@)[i as int]);
            return false;
        }
        i += 1;
    }
    assert(ascii_lowercase(a@) =~= ascii_lowercase(b@));
    true
}

/// The characters of each of `parts`.
pub open spec fn views(parts: Seq<&str>) -> Seq<Seq<char>> {
    parts.map_values(|p: &str| p@)
}

/// The stretches of `s` between the places where `c` stands.
pub fn split_at<'a>(s: &'a str, c: char) -> (parts: Vec<&'a str>)
    ensures
        views(parts@) == split(s@, c),
{
    let chars = chars_of(s);
    let n: usize = chars.len();
    let mut parts: Vec<&'a str> = Vec::new();
    let mut start: usize = 0;
    let mut i: usize = 0;
    assert(split(s@.take(0), c) =~= views(parts@).push(s@.subrange(0, 0)));
    while i < n
        invariant
            chars@ == s@,
            n == s@.len(),
            start <= i <= n,
            split(s@.take(i as int), c) == views(parts@).push(
                s@.subrange(start as int, i as int),
            ),
        decreases n - i,
    {
        let ghost before = s@.take(i as int);
        let ghost done = views(parts@);
        let ghost open = s@.subrange(start as int, i as int);
        assert(s@.take(i + 1).drop_last() == before);
        if chars[i] == c {
            parts.push(s.substring_char(start, i));
            start = i + 1;
            assert(views(parts@) =~= done.push(open));
            assert(s@.subrange(i + 1, i + 1) =~= Seq::<char>::empty());
        } else {
            assert(done.push(open).drop_last() =~= done);
            assert(s@.subrange(start as int, i + 1) =~= open.push(s@[i as int]));
        }
        i += 1;
    }
    let ghost done = views(parts@);
    parts.push(s.substring_char(start, n));
    assert(s@.take(n as int) == s@);
    assert(views(parts@) =~= done.push(s@.subrange(start as int, n as int)));
    parts
}

/// No white space stands at either end of `s`.
pub open spec fn is_trimmed(s: Seq<char>) -> bool {
    s.len() > 0 ==> !is_white_space(s.first()) && !is_white_space(s.last())
}

/// Trimming the start leaves a text that starts with no white space, and is the end of `s`.
proof fn lemma_trim_start(s: Seq<char>)
    ensures
        trim_start(s).len() > 0 ==> !is_white_space(trim_start(s).first()),
        trim_start(s).len() <= s.len(),
        trim_start(s) == s.skip(s.len() - trim_start(s).len()),
        forall|i: int|
            0 <= i < s.len() - trim_start(s).len() ==> is_white_space(#[trigger] s[i]),
    decreases s.len(),
{
    if s.len() > 0 && is_white_space(s.first()) {
        let rest = s.drop_first();
        lemma_trim_start(rest);
        assert(s.skip(s.len() - trim_start(s).len()) =~= rest.skip(
            rest.len() - trim_start(s).len(),
        ));
        assert forall|i: int| 0 <= i < s.len() - trim_start(s).len() implies is_white_space(
            #[trigger] s[i],
        ) by {
            if i > 0 {
                assert(s[i] == rest[i - 1]);
            }
        }
    } else {
        assert(s.skip(0) =~= s);
    }
}

/// Trimming the end leaves a text that ends in no white space, and is the start of `s`.
proof fn lemma_trim_end(s: Seq<char>)
    ensures
        trim_end(s).len() > 0 ==> !is_white_space(trim_end(s).last()),
        trim_end(s).len() <= s.len(),
        trim_end(s) == s.take(trim_end(s).len() as int),
        forall|i: int| trim_end(s).len() <= i < s.len() ==> is_white_space(#[trigger] s[i]),
    decreases s.len(),
{
    if s.len() > 0 && is_white_space(s.last()) {
        let rest = s.drop_last();
        lemma_trim_end(rest);
        assert(s.take(trim_end(s).len() as int) =~= rest.take(trim_end(s).len() as int));
        assert forall|i: int| trim_end(s).len() <= i < s.len() implies is_white_space(
            #[trigger] s[i],
        ) by {
            if i < s.len() - 1 {
                assert(s[i] == rest[i]);
            }
        }
    } else {
        assert(s.take(s.len() as int) =~= s);
    }
}

/// Trimming takes white space from both ends and nothing else: what is left is a stretch of `s`
/// with no white space at its ends, and all that was taken is white space.
pub proof fn trim_takes_white_space_only(s: Seq<char>) -> (from: int)
    ensures
        is_trimmed(trim(s)),
        0 <= from <= from + trim(s).len() <= s.len(),
        trim(s) == s.subrange(from, from + trim(s).len()),
        forall|i: int|
            0 <= i < from || from + trim(s).len() <= i < s.len() ==> is_white_space(
                #[trigger] s[i],
            ),
{
    let t = trim_start(s);
    let from = s.len() - t.len();
    lemma_trim_start(s);
    lemma_trim_end(t);
    assert(trim(s) =~= s.subrange(from, from + trim(s).len()));
    if trim(s).len() > 0 {
        assert(trim(s).first() == t.first());
    }
    assert forall|i: int| 0 <= i < from || from + trim(s).len() <= i < s.len() implies is_white_space(
        #[trigger] s[i],
    ) by {
        if i >= from {
            assert(s[i] == t[i - from]);
        }
    }
    from
}

/// A text with no white space at its ends is left as it is.
pub proof fn trim_leaves_trimmed(s: Seq<char>)
    requires
        is_trimmed(s),
    ensures
        trim(s) == s,
{
}

/// Trimming twice is trimming once.
pub proof fn trim_is_idempotent(s: Seq<char>)
    ensures
        trim(trim(s)) == trim(s),
{
    let _ = trim_takes_white_space_only(s);
    trim_leaves_trimmed(trim(s));
}

/// White space round a text does not matter to what trimming leaves of it.
pub proof fn trim_ignores_padding(before: Seq<char>, s: Seq<char>, behind: Seq<char>)
    requires
        forall|i: int| 0 <= i < before.len() ==> is_white_space(#[trigger] before[i]),
        forall|i: int| 0 <= i < behind.len() ==> is_white_space(#[trigger] behind[i]),
    ensures
        trim(before + s + behind) == trim(s),
    decreases before.len() + behind.len(),
{
    if before.len() > 0 {
        let whole = before + s + behind;
        assert(whole.drop_first() =~= before.drop_first() + s + behind);
        trim_ignores_padding(before.drop_first(), s, behind);
    } else if behind.len() > 0 {
        let rest = behind.drop_last();
        let whole = before + s + behind;
        assert(whole.drop_last() =~= before + s + rest);
        trim_ignores_padding(before, s, rest);
        lemma_trim_last(whole);
    } else {
        assert(before + s + behind =~= s);
    }
}

/// White space at the end of a text does not matter to what trimming leaves of it.
proof fn lemma_trim_last(s: Seq<char>)
    requires
        s.len() > 0,
        is_white_space(s.last()),
    ensures
        trim(s) == trim(s.drop_last()),
    decreases s.len(),
{
    if is_white_space(s.first()) {
        if s.len() > 1 {
            assert(s.drop_first().drop_last() =~= s.drop_last().drop_first());
            lemma_trim_last(s.drop_first());
        } else {
            assert(s.drop_first() =~= s.drop_last());
        }
    }
}

/// Where `index_of` finds a character.
pub proof fn lemma_index_of(s: Seq<char>, c: char)
    ensures
        match index_of(s, c) {
            Some(i) => {
                &&& 0 <= i < s.len()
                &&& s[i] == c
                &&& forall|j: int| 0 <= j < i ==> #[trigger] s[j] != c
            },
            None => !s.contains(c),
        },
    decreases s.len(),
{
    if s.len() > 0 && s.first() != c {
        let rest = s.drop_first();
        lemma_index_of(rest, c);
        match index_of(rest, c) {
            Some(i) => {
                assert forall|j: int| 0 <= j < i + 1 implies #[trigger] s[j] != c by {
                    if j > 0 {
                        assert(s[j] == rest[j - 1]);
                    }
                }
            },
            None => {
                assert forall|j: int| 0 <= j < s.len() implies s[j] != c by {
                    if j > 0 {
                        assert(s[j] == rest[j - 1]);
                        assert(rest.contains(rest[j - 1]));
                    }
                }
            },
        }
    }
}

/// A text is cut at the first `c`, wherever another may stand.
pub proof fn lemma_cut(a: Seq<char>, c: char, b: Seq<char>)
    requires
        !a.contains(c),
    ensures
        index_of(a + seq![c] + b, c) == Some(a.len() as int),
        cut(a + seq![c] + b, c) == Some((a, b)),
{
    let s = a + seq![c] + b;
    lemma_index_of(s, c);
    assert(s[a.len() as int] == c);
    assert(s.contains(c));
    let i = index_of(s, c)->0;
    if i < a.len() {
        assert(a[i] == c);
    }
    assert(s.take(i) =~= a);
    assert(s.skip(i + 1) =~= b);
}

/// A text without `c` is not cut.
pub proof fn lemma_no_cut(s: Seq<char>, c: char)
    requires
        !s.contains(c),
    ensures
        index_of(s, c) is None,
        cut(s, c) is None,
{
    lemma_index_of(s, c);
}

/// A text is cut at the first `pat`, where no character before it starts `pat`.
pub proof fn lemma_cut_text(a: Seq<char>, pat: Seq<char>, b: Seq<char>)
    requires
        pat.len() > 0,
        !a.contains(pat.first()),
    ensures
        index_of_text(a + pat + b, pat) == Some(a.len() as int),
        cut_text(a + pat + b, pat) == Some((a, b)),
    decreases a.len(),
{
    let s = a + pat + b;
    if a.len() == 0 {
        assert(s.subrange(0, pat.len() as int) =~= pat);
    } else {
        assert(s.first() == a.first());
        assert(a.contains(a.first()));
        if pat.is_prefix_of(s) {
            assert(pat.first() == s.subrange(0, pat.len() as int)[0]);
        }
        let rest = a.drop_first();
        assert forall|i: int| 0 <= i < rest.len() implies rest[i] != pat.first() by {
            assert(rest[i] == a[i + 1]);
            assert(a.contains(a[i + 1]));
        }
        assert(s.drop_first() =~= rest + pat + b);
        lemma_cut_text(rest, pat, b);
    }
    assert(s.take(a.len() as int) =~= a);
    assert(s.skip((a.len() + pat.len()) as int) =~= b);
}

/// A text without `c` is one stretch.
pub proof fn lemma_split_whole(s: Seq<char>, c: char)
    requires
        !s.contains(c),
    ensures
        split(s, c) == seq![s],
    decreases s.len(),
{
    if s.len() > 0 {
        assert(s.contains(s.last()));
        let rest = s.drop_last();
        assert forall|i: int| 0 <= i < rest.len() implies rest[i] != c by {
            assert(rest[i] == s[i]);
            assert(s.contains(s[i]));
        }
        lemma_split_whole(rest, c);
        assert(seq![rest].drop_last() =~= Seq::empty());
        assert(rest.push(s.last()) =~= s);
        assert(split(s, c) =~= seq![s]);
    }
}

/// There is at least one stretch.
pub proof fn lemma_split_nonempty(s: Seq<char>, c: char)
    ensures
        split(s, c).len() > 0,
    decreases s.len(),
{
    if s.len() > 0 {
        lemma_split_nonempty(s.drop_last(), c);
    }
}

/// The stretches of two texts with `c` between them are those of the one and of the other.
pub proof fn lemma_split_concat(a: Seq<char>, c: char, b: Seq<char>)
    ensures
        split(a + seq![c] + b, c) == split(a, c) + split(b, c),
    decreases b.len(),
{
    let s = a + seq![c] + b;
    if b.len() == 0 {
        assert(s.drop_last() =~= a);
        assert(b =~= Seq::empty());
        assert(split(s, c) =~= split(a, c) + split(b, c));
    } else {
        let rest = b.drop_last();
        assert(s.drop_last() =~= a + seq![c] + rest);
        lemma_split_concat(a, c, rest);
        lemma_split_nonempty(rest, c);
        assert(split(s, c) =~= split(a, c) + split(b, c));
    }
}

/// No stretch holds `c`.
pub proof fn lemma_split_parts(s: Seq<char>, c: char)
    ensures
        forall|i: int| 0 <= i < split(s, c).len() ==> !(#[trigger] split(s, c)[i]).contains(c),
    decreases s.len(),
{
    if s.len() > 0 {
        let parts = split(s.drop_last(), c);
        lemma_split_parts(s.drop_last(), c);
        lemma_split_nonempty(s.drop_last(), c);
        assert forall|i: int| 0 <= i < split(s, c).len() implies !(#[trigger] split(s, c)[i]).contains(
            c,
        ) by {
            if i < parts.len() - 1 || s.last() == c {
                if i < parts.len() {
                    assert(split(s, c)[i] == parts[i]);
                }
            } else {
                let part = parts[parts.len() - 1];
                assert forall|j: int| 0 <= j < part.len() implies part[j] != c by {
                    assert(part.contains(part[j]));
                }
                assert(split(s, c)[i] == part.push(s.last()));
            }
        }
    }
}

/// Where `index_of_text` finds a text.
pub proof fn lemma_index_of_text(s: Seq<char>, pat: Seq<char>)
    ensures
        index_of_text(s, pat) matches Some(i) ==> {
            &&& 0 <= i <= i + pat.len() <= s.len()
            &&& s.subrange(i, i + pat.len()) == pat
        },
    decreases s.len(),
{
    if !pat.is_prefix_of(s) && s.len() > 0 {
        let rest = s.drop_first();
        lemma_index_of_text(rest, pat);
        if let Some(i) = index_of_text(rest, pat) {
            assert(s.subrange(i + 1, i + 1 + pat.len()) =~= rest.subrange(i, i + pat.len()));
        }
    }
}

} // verus!
