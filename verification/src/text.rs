//! Character-level text helpers: the pieces of `str` that the installer's
//! parsers rely on, each stated over `Seq<char>`.

use vstd::prelude::*;
use vstd::string::*;

verus! {

broadcast use vstd::string::group_string_axioms;

/// Unicode `White_Space`, as `char::is_whitespace` documents it.
pub open spec fn is_whitespace(c: char) -> bool {
    let u = c as u32;
    ||| 0x9 <= u <= 0xd
    ||| u == 0x20
    ||| u == 0x85
    ||| u == 0xa0
    ||| u == 0x1680
    ||| 0x2000 <= u <= 0x200a
    ||| u == 0x2028
    ||| u == 0x2029
    ||| u == 0x202f
    ||| u == 0x205f
    ||| u == 0x3000
}

/// `s` without its leading whitespace.
pub open spec fn trim_start(s: Seq<char>) -> Seq<char>
    decreases s.len(),
{
    if s.len() > 0 && is_whitespace(s[0]) {
        trim_start(s.drop_first())
    } else {
        s
    }
}

/// `s` without its trailing whitespace.
pub open spec fn trim_end(s: Seq<char>) -> Seq<char>
    decreases s.len(),
{
    if s.len() > 0 && is_whitespace(s.last()) {
        trim_end(s.drop_last())
    } else {
        s
    }
}

/// `s` without leading and trailing whitespace, as `str::trim` gives it.
pub open spec fn trim(s: Seq<char>) -> Seq<char> {
    trim_end(trim_start(s))
}

/// Whether `s` begins with `prefix`.
pub open spec fn has_prefix(s: Seq<char>, prefix: Seq<char>) -> bool {
    prefix.len() <= s.len() && s.take(prefix.len() as int) == prefix
}

/// Whether `s` ends with `suffix`.
pub open spec fn has_suffix(s: Seq<char>, suffix: Seq<char>) -> bool {
    suffix.len() <= s.len() && s.skip(s.len() - suffix.len()) == suffix
}

/// The first line of `s` and, when a `'\n'` ends it, what follows that `'\n'`.
pub open spec fn break_line(s: Seq<char>) -> (Seq<char>, Option<Seq<char>>)
    decreases s.len(),
{
    if s.len() == 0 {
        (s, None)
    } else if s[0] == '\n' {
        (Seq::empty(), Some(s.drop_first()))
    } else {
        let (head, rest) = break_line(s.drop_first());
        (seq![s[0]] + head, rest)
    }
}

/// A line that a `'\n'` ended, without the `'\r'` of a `"\r\n"` ending.
pub open spec fn strip_cr(line: Seq<char>) -> Seq<char> {
    if line.len() > 0 && line.last() == '\r' {
        line.drop_last()
    } else {
        line
    }
}

/// The lines of `s`, as `str::lines` yields them: split at `"\n"` and
/// `"\r\n"`, with no empty line after a final line ending.
pub open spec fn lines(s: Seq<char>) -> Seq<Seq<char>>
    decreases s.len(),
{
    if s.len() == 0 {
        Seq::empty()
    } else {
        let (head, rest) = break_line(s);
        match rest {
            Some(rest) => {
                if rest.len() < s.len() {
                    seq![strip_cr(head)] + lines(rest)
                } else {
                    Seq::empty()
                }
            },
            None => seq![head],
        }
    }
}

proof fn lemma_break_line(s: Seq<char>)
    ensures
        ({
            let (head, rest) = break_line(s);
            &&& !head.contains('\n')
            &&& match rest {
                Some(r) => s == head + seq!['\n'] + r,
                None => s == head,
            }
        }),
    decreases s.len(),
{
    if s.len() > 0 && s[0] != '\n' {
        lemma_break_line(s.drop_first());
        let (head, rest) = break_line(s.drop_first());
        assert(!(seq![s[0]] + head).contains('\n')) by {
            if (seq![s[0]] + head).contains('\n') {
                let sh = seq![s[0]] + head;
                let k = choose|k: int| 0 <= k < sh.len() && #[trigger] sh[k] == '\n';
                assert(k != 0);
                assert(head[k - 1] == '\n');
            }
        }
        match rest {
            Some(r) => {
                assert(s =~= seq![s[0]] + s.drop_first());
                assert(s =~= seq![s[0]] + head + seq!['\n'] + r);
            },
            None => {
                assert(s =~= seq![s[0]] + s.drop_first());
            },
        }
    } else if s.len() > 0 {
        assert(s == Seq::<char>::empty() + seq!['\n'] + s.drop_first());
    }
}

proof fn lemma_trim_start_props(s: Seq<char>)
    ensures
        trim_start(s).len() <= s.len(),
        trim_start(s) == s.skip(s.len() - trim_start(s).len()),
        trim_start(s).len() > 0 ==> !is_whitespace(trim_start(s)[0]),
    decreases s.len(),
{
    if s.len() > 0 && is_whitespace(s[0]) {
        lemma_trim_start_props(s.drop_first());
        let t = trim_start(s.drop_first());
        assert(s.drop_first().skip(s.drop_first().len() - t.len()) =~= s.skip(s.len() - t.len()));
    } else {
        assert(s.skip(0) =~= s);
    }
}

proof fn lemma_trim_end_props(s: Seq<char>)
    ensures
        trim_end(s).len() <= s.len(),
        trim_end(s) == s.take(trim_end(s).len() as int),
        trim_end(s).len() > 0 ==> !is_whitespace(trim_end(s).last()),
    decreases s.len(),
{
    if s.len() > 0 && is_whitespace(s.last()) {
        lemma_trim_end_props(s.drop_last());
        let t = trim_end(s.drop_last());
        assert(s.drop_last().take(t.len() as int) =~= s.take(t.len() as int));
    } else {
        assert(s.take(s.len() as int) =~= s);
    }
}

/// Trimming twice is trimming once.
pub proof fn lemma_trim_idempotent(s: Seq<char>)
    ensures
        trim(trim(s)) == trim(s),
{
    let t = trim_start(s);
    lemma_trim_start_props(s);
    lemma_trim_end_props(t);
    let u = trim_end(t);
    if u.len() > 0 {
        assert(u[0] == t[0]);
    }
    assert(trim_start(u) == u);
    lemma_trim_end_props(u);
    if u.len() > 0 {
        assert(trim_end(u) == u);
    }
}

/// The characters of `s`, one by one.
pub fn chars_of(s: &str) -> (r: Vec<char>)
    ensures
        r@ == s@,
{
    let mut r: Vec<char> = Vec::new();
    for c in it: s.chars()
        invariant
            r@ == it.seq().take(it.index() as int),
            it.seq() == s@,
    {
        r.push(c);
    }
    r
}

/// A `String` holding the characters of `chars` (std's `FromIterator<&char>`).
#[verifier::external_body]
pub fn string_of(chars: &[char]) -> (r: String)
    ensures
        r@ == chars@,
{
    chars.iter().collect()
}

/// Whether `c` is whitespace (`char::is_whitespace`).
pub fn char_is_whitespace(c: char) -> (r: bool)
    ensures
        r == is_whitespace(c),
{
    let u = c as u32;
    (0x9 <= u && u <= 0xd) || u == 0x20 || u == 0x85 || u == 0xa0 || u == 0x1680 || (0x2000 <= u
        && u <= 0x200a) || u == 0x2028 || u == 0x2029 || u == 0x202f || u == 0x205f || u == 0x3000
}

proof fn lemma_trim_start_skip(s: Seq<char>, i: int)
    requires
        0 <= i <= s.len(),
        forall|k: int| 0 <= k < i ==> is_whitespace(#[trigger] s[k]),
    ensures
        trim_start(s) == trim_start(s.skip(i)),
    decreases i,
{
    if i > 0 {
        lemma_trim_start_skip(s, i - 1);
        assert(s.skip(i - 1).drop_first() == s.skip(i));
    } else {
        assert(s.skip(0) == s);
    }
}

proof fn lemma_trim_end_take(s: Seq<char>, j: int)
    requires
        0 <= j <= s.len(),
        forall|k: int| j <= k < s.len() ==> is_whitespace(#[trigger] s[k]),
    ensures
        trim_end(s) == trim_end(s.take(j)),
    decreases s.len() - j,
{
    if j < s.len() {
        lemma_trim_end_take(s, j + 1);
        assert(s.take(j + 1).drop_last() == s.take(j));
    } else {
        assert(s.take(j) == s);
    }
}

/// The bounds `[start, end)` of `s` without leading and trailing whitespace.
pub fn trim_bounds(s: &[char]) -> (r: (usize, usize))
    ensures
        r.0 <= r.1 <= s@.len(),
        s@.subrange(r.0 as int, r.1 as int) == trim(s@),
{
    let mut i: usize = 0;
    while i < s.len() && char_is_whitespace(s[i])
        invariant
            i <= s@.len(),
            forall|k: int| 0 <= k < i ==> is_whitespace(#[trigger] s@[k]),
        decreases s.len() - i,
    {
        i = i + 1;
    }
    proof {
        lemma_trim_start_skip(s@, i as int);
    }
    let ghost t = s@.skip(i as int);
    assert(t.len() == 0 || !is_whitespace(t[0]));
    assert(trim_start(t) == t);
    let mut j: usize = s.len();
    while j > i && char_is_whitespace(s[j - 1])
        invariant
            i <= j <= s@.len(),
            t == s@.skip(i as int),
            forall|k: int| j <= k < s@.len() ==> is_whitespace(#[trigger] s@[k]),
        decreases j,
    {
        j = j - 1;
    }
    proof {
        let u = j - i;
        assert forall|k: int| u <= k < t.len() implies is_whitespace(#[trigger] t[k]) by {
            assert(t[k] == s@[k + i]);
        }
        lemma_trim_end_take(t, u as int);
        let tu = t.take(u as int);
        assert(tu == s@.subrange(i as int, j as int));
        assert(tu.len() == 0 || !is_whitespace(tu.last()));
    }
    (i, j)
}

/// `s` without leading and trailing whitespace (`str::trim`).
pub fn trimmed(s: &[char]) -> (r: Vec<char>)
    ensures
        r@ == trim(s@),
{
    let (a, b) = trim_bounds(s);
    slice_range(s, a, b)
}

/// The characters `s[from..to]`.
pub fn slice_range(s: &[char], from: usize, to: usize) -> (r: Vec<char>)
    requires
        from <= to <= s@.len(),
    ensures
        r@ == s@.subrange(from as int, to as int),
{
    let mut r: Vec<char> = Vec::new();
    let mut k = from;
    while k < to
        invariant
            from <= k <= to <= s@.len(),
            r@ == s@.subrange(from as int, k as int),
        decreases to - k,
    {
        r.push(s[k]);
        k = k + 1;
        assert(r@ == s@.subrange(from as int, k as int));
    }
    r
}

/// Whether `s` begins with `prefix` (`str::starts_with`).
pub fn starts_with(s: &[char], prefix: &[char]) -> (r: bool)
    ensures
        r == has_prefix(s@, prefix@),
{
    if prefix.len() > s.len() {
        return false;
    }
    let mut k: usize = 0;
    while k < prefix.len()
        invariant
            k <= prefix@.len() <= s@.len(),
            forall|m: int| 0 <= m < k ==> s@[m] == prefix@[m],
        decreases prefix.len() - k,
    {
        if s[k] != prefix[k] {
            assert(s@.take(prefix@.len() as int)[k as int] != prefix@[k as int]);
            return false;
        }
        k = k + 1;
    }
    assert(s@.take(prefix@.len() as int) == prefix@);
    true
}

/// Whether `s` ends with `suffix` (`str::ends_with`).
pub fn ends_with(s: &[char], suffix: &[char]) -> (r: bool)
    ensures
        r == has_suffix(s@, suffix@),
{
    if suffix.len() > s.len() {
        return false;
    }
    let off = s.len() - suffix.len();
    let mut k: usize = 0;
    while k < suffix.len()
        invariant
            off + suffix@.len() == s@.len(),
            k <= suffix@.len(),
            forall|m: int| 0 <= m < k ==> s@[off + m] == suffix@[m],
        decreases suffix.len() - k,
    {
        assert(off + k < s.len());
        let idx = off + k;
        if s[idx] != suffix[k] {
            assert(s@.skip(off as int)[k as int] != suffix@[k as int]);
            return false;
        }
        k = k + 1;
    }
    assert(s@.skip(off as int) == suffix@);
    true
}

/// Whether the two character sequences are equal.
pub fn chars_equal(a: &[char], b: &[char]) -> (r: bool)
    ensures
        r == (a@ == b@),
{
    if a.len() != b.len() {
        return false;
    }
    let mut k: usize = 0;
    while k < a.len()
        invariant
            k <= a@.len() == b@.len(),
            forall|m: int| 0 <= m < k ==> a@[m] == b@[m],
        decreases a.len() - k,
    {
        if a[k] != b[k] {
            return false;
        }
        k = k + 1;
    }
    assert(a@ == b@);
    true
}

/// The character sequences that a vector of character vectors holds.
pub open spec fn views(v: Seq<Vec<char>>) -> Seq<Seq<char>> {
    v.map_values(|l: Vec<char>| l@)
}

/// The lines of `s` (`str::lines`).
pub fn split_lines(s: &[char]) -> (r: Vec<Vec<char>>)
    ensures
        views(r@) == lines(s@),
{
    let mut r: Vec<Vec<char>> = Vec::new();
    let mut start: usize = 0;
    let mut line: Vec<char> = Vec::new();
    let mut k: usize = 0;
    proof {
        assert(s@.skip(0) == s@);
        assert(views(r@) + lines(s@) =~= lines(s@));
    }
    // `start` is where the current line begins; `k` scans it.
    while k < s.len()
        invariant
            start <= k <= s@.len(),
            line@ == s@.subrange(start as int, k as int),
            !line@.contains('\n'),
            views(r@) + lines(s@.skip(start as int)) == lines(s@),
        decreases s.len() - k,
    {
        let c = s[k];
        if c == '\n' {
            let ghost rest = s@.skip(start as int);
            let ghost old_r = views(r@);
            let ghost lv = line@;
            proof {
                assert(rest.take((k - start) as int) == line@);
                lemma_break_at(rest, (k - start) as int);
                assert(rest.skip((k - start) + 1) == s@.skip(k + 1));
            }
            let mut done = line;
            if done.len() > 0 && done[done.len() - 1] == '\r' {
                done.pop();
            }
            assert(done@ == strip_cr(line@));
            r.push(done);
            line = Vec::new();
            k = k + 1;
            start = k;
            assert(views(r@) =~= old_r.push(strip_cr(lv)));
            assert(views(r@) + lines(s@.skip(start as int)) =~= lines(s@));
            assert(line@ =~= s@.subrange(start as int, k as int));
        } else {
            line.push(c);
            k = k + 1;
            proof {
                assert(line@ =~= s@.subrange(start as int, k as int));
                assert(!line@.contains('\n')) by {
                    if line@.contains('\n') {
                        let m = choose|m: int| 0 <= m < line@.len() && #[trigger] line@[m] == '\n';
                        assert(line@[m] == s@[start + m]);
                    }
                }
            }
        }
    }
    proof {
        let rest = s@.skip(start as int);
        assert(rest =~= line@);
        lemma_no_newline_lines(rest);
    }
    if line.len() > 0 {
        let ghost old_r = views(r@);
        let ghost lv = line@;
        r.push(line);
        assert(views(r@) =~= old_r + seq![lv]);
    } else {
        assert(views(r@) + Seq::<Seq<char>>::empty() =~= views(r@));
    }
    r
}

proof fn lemma_break_at(s: Seq<char>, i: int)
    requires
        0 <= i < s.len(),
        s[i] == '\n',
        !s.take(i).contains('\n'),
    ensures
        break_line(s) == (s.take(i), Some(s.skip(i + 1))),
        lines(s) == seq![strip_cr(s.take(i))] + lines(s.skip(i + 1)),
    decreases i,
{
    if i > 0 {
        assert(s[0] != '\n') by {
            assert(s.take(i)[0] == s[0]);
        }
        let t = s.drop_first();
        let tt = t.take(i - 1);
        assert(!tt.contains('\n')) by {
            if tt.contains('\n') {
                let m = choose|m: int| 0 <= m < tt.len() && #[trigger] tt[m] == '\n';
                assert(s.take(i)[m + 1] == '\n');
            }
        }
        lemma_break_at(t, i - 1);
        assert(seq![s[0]] + t.take(i - 1) == s.take(i));
        assert(t.skip(i) == s.skip(i + 1));
    } else {
        assert(s.take(0) == Seq::<char>::empty());
        assert(s.skip(1) == s.drop_first());
    }
}

proof fn lemma_no_newline_lines(s: Seq<char>)
    requires
        !s.contains('\n'),
    ensures
        lines(s) == (if s.len() == 0 { Seq::<Seq<char>>::empty() } else { seq![s] }),
{
    if s.len() > 0 {
        lemma_break_line(s);
        let (head, rest) = break_line(s);
        if rest is Some {
            assert(s[head.len() as int] == '\n');
        }
    }
}

/// The number of bytes that UTF-8 takes for `c`.
pub open spec fn char_width(c: char) -> int {
    if (c as u32) < 0x80 {
        1
    } else if (c as u32) < 0x800 {
        2
    } else if (c as u32) < 0x10000 {
        3
    } else {
        4
    }
}

/// The number of bytes of the UTF-8 encoding of `s`.
pub open spec fn utf8_len(s: Seq<char>) -> int
    decreases s.len(),
{
    if s.len() == 0 {
        0
    } else {
        utf8_len(s.drop_last()) + char_width(s.last())
    }
}

/// The index of the character at which byte offset `b` of the UTF-8
/// encoding of `t` starts; `None` where `b` lies inside a character or
/// beyond the end. The end itself is the index `t.len()`.
pub open spec fn byte_index(t: Seq<char>, b: int) -> Option<int>
    decreases t.len(),
{
    if b == 0 {
        Some(0)
    } else if b < 0 || t.len() == 0 {
        None
    } else {
        match byte_index(t.drop_first(), b - char_width(t[0])) {
            Some(i) => Some(i + 1),
            None => None,
        }
    }
}

/// The byte offset of character index `i` of `t`, where it is one and fits
/// in a `usize`.
pub open spec fn byte_offset(t: Seq<char>, i: int) -> Option<int> {
    if 0 <= i <= t.len() && utf8_len(t.take(i)) <= usize::MAX {
        Some(utf8_len(t.take(i)))
    } else {
        None
    }
}

/// The UTF-8 length grows with the prefix taken.
pub proof fn lemma_utf8_len_grows(t: Seq<char>, j: int, i: int)
    requires
        0 <= j <= i <= t.len(),
    ensures
        utf8_len(t.take(j)) <= utf8_len(t.take(i)),
        j < i ==> utf8_len(t.take(j)) < utf8_len(t.take(i)),
    decreases i - j,
{
    if j < i {
        assert(t.take(i).drop_last() =~= t.take(i - 1));
        lemma_utf8_len_grows(t, j, i - 1);
    }
}

/// The UTF-8 length of a concatenation.
pub proof fn lemma_utf8_len_concat(a: Seq<char>, b: Seq<char>)
    ensures
        utf8_len(a + b) == utf8_len(a) + utf8_len(b),
    decreases b.len(),
{
    if b.len() > 0 {
        assert((a + b).drop_last() =~= a + b.drop_last());
        lemma_utf8_len_concat(a, b.drop_last());
    } else {
        assert(a + b =~= a);
    }
}

/// The byte offset of a character index leads back to that index.
pub proof fn lemma_byte_index_of_offset(t: Seq<char>, k: int)
    requires
        0 <= k <= t.len(),
    ensures
        byte_index(t, utf8_len(t.take(k))) == Some(k),
    decreases t.len(),
{
    if k == 0 {
        assert(t.take(0) =~= Seq::<char>::empty());
    } else {
        let rest = t.drop_first();
        assert(t.take(k) =~= seq![t[0]] + rest.take(k - 1));
        lemma_utf8_len_concat(seq![t[0]], rest.take(k - 1));
        assert(seq![t[0]].drop_last() =~= Seq::<char>::empty());
        lemma_utf8_len_grows(rest, 0, k - 1);
        assert(rest.take(0) =~= Seq::<char>::empty());
        lemma_byte_index_of_offset(rest, k - 1);
    }
}

/// A character index found by byte offset lies within the text.
pub proof fn lemma_byte_index_bounds(t: Seq<char>, b: int)
    ensures
        byte_index(t, b) matches Some(i) ==> 0 <= i <= t.len(),
    decreases t.len(),
{
    if b != 0 && b >= 0 && t.len() > 0 {
        lemma_byte_index_bounds(t.drop_first(), b - char_width(t[0]));
    }
}

/// The number of UTF-8 bytes of `c`.
pub fn char_width_of(c: char) -> (r: usize)
    ensures
        r == char_width(c),
{
    let u = c as u32;
    if u < 0x80 {
        1
    } else if u < 0x800 {
        2
    } else if u < 0x10000 {
        3
    } else {
        4
    }
}

/// The byte offset of character index `i` of `t` (see [`byte_offset`]).
pub fn byte_offset_of(t: &[char], i: usize) -> (r: Option<usize>)
    ensures
        match r {
            Some(b) => byte_offset(t@, i as int) == Some(b as int),
            None => byte_offset(t@, i as int) is None,
        },
{
    if i > t.len() {
        return None;
    }
    let mut sum: usize = 0;
    let mut m: usize = 0;
    assert(t@.take(0) =~= Seq::<char>::empty());
    while m < i
        invariant
            m <= i <= t@.len(),
            sum == utf8_len(t@.take(m as int)),
        decreases i - m,
    {
        let w = char_width_of(t[m]);
        assert(t@.take(m + 1).drop_last() =~= t@.take(m as int));
        if w > usize::MAX - sum {
            proof {
                lemma_utf8_len_grows(t@, m + 1, i as int);
            }
            return None;
        }
        sum = sum + w;
        m = m + 1;
    }
    Some(sum)
}

/// The character index at which byte offset `b` of `t` starts (see
/// [`byte_index`]).
pub fn char_index_at(t: &[char], b: usize) -> (r: Option<usize>)
    ensures
        match r {
            Some(i) => byte_index(t@, b as int) == Some(i as int),
            None => byte_index(t@, b as int) is None,
        },
{
    let mut sum: usize = 0;
    let mut m: usize = 0;
    assert(t@.skip(0) =~= t@);
    while m < t.len() && sum < b
        invariant
            m <= t@.len(),
            sum <= b,
            byte_index(t@, b as int) == match byte_index(t@.skip(m as int), b - sum) {
                Some(j) => Some(j + m),
                None => None::<int>,
            },
        decreases t.len() - m,
    {
        let w = char_width_of(t[m]);
        let ghost rest = t@.skip(m as int);
        assert(rest[0] == t@[m as int]);
        assert(rest.drop_first() =~= t@.skip(m + 1));
        if w > b - sum {
            assert(byte_index(rest.drop_first(), (b - sum) - char_width(rest[0])) is None);
            assert(byte_index(rest, b - sum) is None);
            return None;
        }
        sum = sum + w;
        m = m + 1;
    }
    if sum == b {
        Some(m)
    } else {
        assert(t@.skip(m as int).len() == 0);
        None
    }
}

} // verus!
