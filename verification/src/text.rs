use vstd::prelude::*;
use vstd::std_specs::iter::IteratorSpec;

verus! {

/// Appends one character to a `String` (std's `String::push`).
/// Trusted: the contract claims that exactly `c` is appended.
#[verifier::external_body]
fn push_char(s: &mut String, c: char)
    ensures
        final(s)@ == old(s)@.push(c),
{
    s.push(c);
}

/// The characters of a string slice, in order.
pub fn chars_of(s: &str) -> (v: Vec<char>)
    ensures
        v@ == s@,
{
    let mut v: Vec<char> = Vec::new();
    let mut it = s.chars();
    let ghost full = s@;
    assert(it.remaining() == s@);
    loop
        invariant
            it.obeys_prophetic_iter_laws(),
            it.decrease() is Some,
            full == v@ + it.remaining(),
        ensures
            v@ == full,
        decreases it.decrease()->0,
    {
        match it.next() {
            Some(c) => {
                v.push(c);
            },
            None => {
                break;
            },
        }
    }
    v
}

/// Builds a `String` from a sequence of characters.
pub fn string_of(v: &[char]) -> (s: String)
    ensures
        s@ == v@,
{
    let mut s = String::new();
    let mut i: usize = 0;
    while i < v.len()
        invariant
            i <= v.len(),
            s@ == v@.take(i as int),
        decreases v.len() - i,
    {
        push_char(&mut s, v[i]);
        i = i + 1;
        assert(v@.take(i as int) == v@.take((i - 1) as int).push(v@[i - 1]));
    }
    assert(v@.take(v.len() as int) == v@);
    s
}

/// Is the text empty?
pub fn str_is_empty(s: &str) -> (r: bool)
    ensures
        r == (s@.len() == 0),
{
    let c = chars_of(s);
    c.len() == 0
}

} // verus!

verus! {

/// Unicode `White_Space` property: the characters `char::is_whitespace` accepts.
pub open spec fn is_ws(c: char) -> bool {
    let n = c as u32;
    ||| 9 <= n <= 13
    ||| n == 32
    ||| n == 0x85
    ||| n == 0xa0
    ||| n == 0x1680
    ||| 0x2000 <= n <= 0x200a
    ||| n == 0x2028
    ||| n == 0x2029
    ||| n == 0x202f
    ||| n == 0x205f
    ||| n == 0x3000
}

pub fn is_whitespace(c: char) -> (b: bool)
    ensures
        b == is_ws(c),
{
    let n = c as u32;
    (9 <= n && n <= 13) || n == 32 || n == 0x85 || n == 0xa0 || n == 0x1680 || (0x2000 <= n && n
        <= 0x200a) || n == 0x2028 || n == 0x2029 || n == 0x202f || n == 0x205f || n == 0x3000
}

/// `s` without its leading whitespace.
pub open spec fn trim_start(s: Seq<char>) -> Seq<char>
    decreases s.len(),
{
    if s.len() > 0 && is_ws(s[0]) {
        trim_start(s.drop_first())
    } else {
        s
    }
}

/// `s` without its trailing whitespace.
pub open spec fn trim_end(s: Seq<char>) -> Seq<char>
    decreases s.len(),
{
    if s.len() > 0 && is_ws(s.last()) {
        trim_end(s.drop_last())
    } else {
        s
    }
}

/// `s` without leading and trailing whitespace (`str::trim`).
pub open spec fn trim(s: Seq<char>) -> Seq<char> {
    trim_end(trim_start(s))
}

proof fn lemma_trim_start_skip(s: Seq<char>, i: int)
    requires
        0 <= i <= s.len(),
        forall|k: int| 0 <= k < i ==> is_ws(#[trigger] s[k]),
        i < s.len() ==> !is_ws(s[i]),
    ensures
        trim_start(s) == s.skip(i),
    decreases i,
{
    if i == 0 {
        assert(s.skip(0) == s);
    } else {
        lemma_trim_start_skip(s.drop_first(), i - 1);
        assert(s.drop_first().skip(i - 1) == s.skip(i));
    }
}

proof fn lemma_trim_end_take(s: Seq<char>, j: int)
    requires
        0 <= j <= s.len(),
        forall|k: int| j <= k < s.len() ==> is_ws(#[trigger] s[k]),
        j > 0 ==> !is_ws(s[j - 1]),
    ensures
        trim_end(s) == s.take(j),
    decreases s.len() - j,
{
    if j == s.len() {
        assert(s.take(j) == s);
    } else {
        lemma_trim_end_take(s.drop_last(), j);
        assert(s.drop_last().take(j) == s.take(j));
    }
}

/// Characters `start..end` of `s`.
pub fn slice_chars(s: &Vec<char>, start: usize, end: usize) -> (r: Vec<char>)
    requires
        start <= end <= s.len(),
    ensures
        r@ == s@.subrange(start as int, end as int),
{
    let mut r: Vec<char> = Vec::new();
    let mut i = start;
    while i < end
        invariant
            start <= i <= end <= s.len(),
            r@ == s@.subrange(start as int, i as int),
        decreases end - i,
    {
        r.push(s[i]);
        i = i + 1;
        assert(r@ == s@.subrange(start as int, i as int));
    }
    r
}

/// `str::trim` on a character vector.
pub fn trim_chars(s: &Vec<char>) -> (r: Vec<char>)
    ensures
        r@ == trim(s@),
{
    let mut i: usize = 0;
    while i < s.len() && is_whitespace(s[i])
        invariant
            i <= s.len(),
            forall|k: int| 0 <= k < i ==> is_ws(#[trigger] s@[k]),
        decreases s.len() - i,
    {
        i = i + 1;
    }
    proof {
        lemma_trim_start_skip(s@, i as int);
    }
    let mut j: usize = s.len();
    while j > i && is_whitespace(s[j - 1])
        invariant
            i <= j <= s.len(),
            forall|k: int| j <= k < s.len() ==> is_ws(#[trigger] s@[k]),
        decreases j,
    {
        j = j - 1;
    }
    let ghost t = s@.skip(i as int);
    proof {
        assert forall|k: int| (j - i) <= k < t.len() implies is_ws(#[trigger] t[k]) by {
            assert(t[k] == s@[k + i]);
        }
        if j > i {
            assert(t[j - i - 1] == s@[j - 1]);
        }
        lemma_trim_end_take(t, (j - i) as int);
        assert(t.take((j - i) as int) == s@.subrange(i as int, j as int));
    }
    slice_chars(s, i, j)
}

/// `str::trim` producing a new `String`.
pub fn trim_str(s: &str) -> (r: String)
    ensures
        r@ == trim(s@),
{
    let v = chars_of(s);
    let t = trim_chars(&v);
    string_of(t.as_slice())
}

/// ASCII lower-casing of one character (`char::to_ascii_lowercase`).
pub open spec fn ascii_lower(c: char) -> char {
    if 'A' <= c && c <= 'Z' {
        ((c as u32) + 32) as char
    } else {
        c
    }
}

pub open spec fn ascii_lower_seq(s: Seq<char>) -> Seq<char> {
    s.map_values(|c: char| ascii_lower(c))
}

/// Equality up to ASCII case (`str::eq_ignore_ascii_case`).
pub open spec fn eq_ignore_case(a: Seq<char>, b: Seq<char>) -> bool {
    ascii_lower_seq(a) == ascii_lower_seq(b)
}

pub fn to_ascii_lower_char(c: char) -> (r: char)
    ensures
        r == ascii_lower(c),
{
    if 'A' <= c && c <= 'Z' {
        let n: u8 = ((c as u32) + 32) as u8;
        let r = n as char;
        r
    } else {
        c
    }
}

pub fn to_ascii_lower_chars(s: &Vec<char>) -> (r: Vec<char>)
    ensures
        r@ == ascii_lower_seq(s@),
{
    let mut r: Vec<char> = Vec::new();
    let mut i: usize = 0;
    while i < s.len()
        invariant
            i <= s.len(),
            r@ == ascii_lower_seq(s@.take(i as int)),
        decreases s.len() - i,
    {
        r.push(to_ascii_lower_char(s[i]));
        i = i + 1;
        assert(ascii_lower_seq(s@.take(i as int)) == ascii_lower_seq(s@.take((i - 1) as int)).push(
            ascii_lower(s@[i - 1]),
        ));
    }
    assert(s@.take(s.len() as int) == s@);
    r
}

/// Exact equality of two character sequences.
pub fn chars_eq(a: &Vec<char>, b: &Vec<char>) -> (r: bool)
    ensures
        r == (a@ == b@),
{
    if a.len() != b.len() {
        return false;
    }
    let mut i: usize = 0;
    while i < a.len()
        invariant
            i <= a.len() == b.len(),
            forall|k: int| 0 <= k < i ==> a@[k] == b@[k],
        decreases a.len() - i,
    {
        if a[i] != b[i] {
            return false;
        }
        i = i + 1;
    }
    assert(a@ =~= b@);
    true
}

/// Equality up to ASCII case of two character sequences.
pub fn chars_eq_ignore_case(a: &Vec<char>, b: &Vec<char>) -> (r: bool)
    ensures
        r == eq_ignore_case(a@, b@),
{
    if a.len() != b.len() {
        assert(ascii_lower_seq(a@).len() != ascii_lower_seq(b@).len());
        return false;
    }
    let mut i: usize = 0;
    while i < a.len()
        invariant
            i <= a.len() == b.len(),
            forall|k: int| 0 <= k < i ==> ascii_lower(a@[k]) == ascii_lower(b@[k]),
        decreases a.len() - i,
    {
        if to_ascii_lower_char(a[i]) != to_ascii_lower_char(b[i]) {
            assert(ascii_lower_seq(a@)[i as int] != ascii_lower_seq(b@)[i as int]);
            return false;
        }
        i = i + 1;
    }
    assert(ascii_lower_seq(a@) =~= ascii_lower_seq(b@));
    true
}

/// Does `s` start with `p`?
pub fn starts_with(s: &Vec<char>, p: &Vec<char>) -> (r: bool)
    ensures
        r == p@.is_prefix_of(s@),
{
    if p.len() > s.len() {
        return false;
    }
    let mut i: usize = 0;
    while i < p.len()
        invariant
            i <= p.len() <= s.len(),
            forall|k: int| 0 <= k < i ==> p@[k] == s@[k],
        decreases p.len() - i,
    {
        if p[i] != s[i] {
            return false;
        }
        i = i + 1;
    }
    true
}

/// Does `s` end with `p`?
pub fn ends_with(s: &Vec<char>, p: &Vec<char>) -> (r: bool)
    ensures
        r == p@.is_suffix_of(s@),
{
    if p.len() > s.len() {
        return false;
    }
    let off = s.len() - p.len();
    let mut i: usize = 0;
    while i < p.len()
        invariant
            i <= p.len() <= s.len(),
            off == s.len() - p.len(),
            forall|k: int| 0 <= k < i ==> p@[k] == s@[off + k],
        decreases p.len() - i,
    {
        if p[i] != s[off + i] {
            return false;
        }
        i = i + 1;
    }
    assert(s@.subrange(off as int, s@.len() as int) =~= p@);
    true
}

/// Does `c` occur in `s`?
pub fn contains_char(s: &Vec<char>, c: char) -> (r: bool)
    ensures
        r == s@.contains(c),
{
    let mut i: usize = 0;
    while i < s.len()
        invariant
            i <= s.len(),
            forall|k: int| 0 <= k < i ==> s@[k] != c,
        decreases s.len() - i,
    {
        if s[i] == c {
            return true;
        }
        i = i + 1;
    }
    false
}

/// Does some character of `s` satisfy `char::is_whitespace`?
pub open spec fn has_ws(s: Seq<char>) -> bool {
    exists|k: int| 0 <= k < s.len() && is_ws(#[trigger] s[k])
}

pub fn contains_whitespace(s: &Vec<char>) -> (r: bool)
    ensures
        r == has_ws(s@),
{
    let mut i: usize = 0;
    while i < s.len()
        invariant
            i <= s.len(),
            forall|k: int| 0 <= k < i ==> !is_ws(#[trigger] s@[k]),
        decreases s.len() - i,
    {
        if is_whitespace(s[i]) {
            return true;
        }
        i = i + 1;
    }
    false
}

/// `a` followed by `b`.
pub fn concat_chars(a: &Vec<char>, b: &Vec<char>) -> (r: Vec<char>)
    ensures
        r@ == a@ + b@,
{
    let mut r = slice_chars(a, 0, a.len());
    let mut i: usize = 0;
    while i < b.len()
        invariant
            i <= b.len(),
            r@ == a@ + b@.take(i as int),
        decreases b.len() - i,
    {
        r.push(b[i]);
        i = i + 1;
        assert(a@ + b@.take(i as int) == (a@ + b@.take((i - 1) as int)).push(b@[i - 1]));
    }
    assert(b@.take(b.len() as int) == b@);
    r
}

} // verus!

verus! {

/// The contents of a sequence of character vectors.
pub open spec fn views(v: Seq<Vec<char>>) -> Seq<Seq<char>> {
    v.map_values(|x: Vec<char>| x@)
}

/// `str::split(sep)`: the pieces between occurrences of `sep`, in order.
pub open spec fn split_char(s: Seq<char>, sep: char) -> Seq<Seq<char>>
    decreases s.len(),
{
    if s.len() == 0 {
        seq![Seq::<char>::empty()]
    } else {
        let r = split_char(s.drop_last(), sep);
        if s.last() == sep {
            r.push(Seq::<char>::empty())
        } else {
            r.update(r.len() - 1, r.last().push(s.last()))
        }
    }
}

pub proof fn lemma_split_char_nonempty(s: Seq<char>, sep: char)
    ensures
        split_char(s, sep).len() >= 1,
    decreases s.len(),
{
    if s.len() > 0 {
        lemma_split_char_nonempty(s.drop_last(), sep);
    }
}

/// `str::split(sep)` on a character vector.
pub fn split_chars(s: &Vec<char>, sep: char) -> (r: Vec<Vec<char>>)
    ensures
        views(r@) == split_char(s@, sep),
{
    let mut pieces: Vec<Vec<char>> = Vec::new();
    let mut cur: Vec<char> = Vec::new();
    let mut i: usize = 0;
    assert(s@.take(0) =~= Seq::<char>::empty());
    assert(views(pieces@).push(cur@) =~= split_char(s@.take(0), sep));
    while i < s.len()
        invariant
            i <= s.len(),
            views(pieces@).push(cur@) == split_char(s@.take(i as int), sep),
        decreases s.len() - i,
    {
        let c = s[i];
        let ghost prev = views(pieces@).push(cur@);
        assert(s@.take(i + 1).drop_last() =~= s@.take(i as int));
        if c == sep {
            let done = cur;
            pieces.push(done);
            cur = Vec::new();
            assert(views(pieces@).push(cur@) =~= prev.push(Seq::<char>::empty()));
        } else {
            cur.push(c);
            assert(views(pieces@).push(cur@) =~= prev.update(prev.len() - 1, prev.last().push(c)));
        }
        i = i + 1;
    }
    assert(s@.take(s.len() as int) =~= s@);
    pieces.push(cur);
    pieces
}

/// `str::split_once(c)`: the text before and after the first `c`.
pub open spec fn split_once(s: Seq<char>, c: char) -> Option<(Seq<char>, Seq<char>)>
    decreases s.len(),
{
    if s.len() == 0 {
        None
    } else if s[0] == c {
        Some((Seq::<char>::empty(), s.drop_first()))
    } else {
        match split_once(s.drop_first(), c) {
            Some((a, b)) => Some((seq![s[0]] + a, b)),
            None => None,
        }
    }
}

proof fn lemma_split_once_at(s: Seq<char>, c: char, i: int)
    requires
        0 <= i <= s.len(),
        forall|k: int| 0 <= k < i ==> s[k] != c,
    ensures
        i == s.len() ==> split_once(s, c) is None,
        i < s.len() && s[i] == c ==> split_once(s, c) == Some((s.take(i), s.skip(i + 1))),
    decreases i,
{
    if i > 0 {
        lemma_split_once_at(s.drop_first(), c, i - 1);
        assert(seq![s[0]] + s.drop_first().take(i - 1) =~= s.take(i));
        if i < s.len() {
            assert(s.drop_first().skip(i) =~= s.skip(i + 1));
        }
    } else {
        assert(s.take(0) =~= Seq::<char>::empty());
        if s.len() > 0 {
            assert(s.skip(1) =~= s.drop_first());
        }
    }
}

/// `str::split_once(c)` on a character vector.
pub fn split_once_chars(s: &Vec<char>, c: char) -> (r: Option<(Vec<char>, Vec<char>)>)
    ensures
        match r {
            Some((a, b)) => split_once(s@, c) == Some((a@, b@)),
            None => split_once(s@, c) is None,
        },
{
    let mut i: usize = 0;
    while i < s.len()
        invariant
            i <= s.len(),
            forall|k: int| 0 <= k < i ==> s@[k] != c,
        decreases s.len() - i,
    {
        if s[i] == c {
            proof {
                lemma_split_once_at(s@, c, i as int);
            }
            let a = slice_chars(s, 0, i);
            let b = slice_chars(s, i + 1, s.len());
            assert(b@ =~= s@.skip(i + 1));
            return Some((a, b));
        }
        i = i + 1;
    }
    proof {
        lemma_split_once_at(s@, c, i as int);
    }
    None
}

/// `str::replace(pat, rep)` for a non-empty pattern: every leftmost,
/// non-overlapping occurrence of `pat` is replaced by `rep`.
pub open spec fn replace_all(s: Seq<char>, pat: Seq<char>, rep: Seq<char>) -> Seq<char>
    decreases s.len(),
{
    if s.len() == 0 {
        Seq::<char>::empty()
    } else if pat.len() > 0 && pat.is_prefix_of(s) {
        rep + replace_all(s.skip(pat.len() as int), pat, rep)
    } else {
        seq![s[0]] + replace_all(s.drop_first(), pat, rep)
    }
}

/// Does `p` occur in `s` at position `i`?
fn matches_at(s: &Vec<char>, p: &Vec<char>, i: usize) -> (r: bool)
    requires
        i <= s.len(),
    ensures
        r == p@.is_prefix_of(s@.skip(i as int)),
{
    if p.len() > s.len() - i {
        return false;
    }
    let mut k: usize = 0;
    while k < p.len()
        invariant
            k <= p.len() <= s.len() - i,
            i <= s.len(),
            forall|j: int| 0 <= j < k ==> p@[j] == s@[i + j],
        decreases p.len() - k,
    {
        if p[k] != s[i + k] {
            assert(s@.skip(i as int)[k as int] == s@[i + k]);
            return false;
        }
        k = k + 1;
    }
    assert forall|j: int| 0 <= j < p@.len() implies p@[j] == s@.skip(i as int)[j] by {}
    true
}

/// `str::replace` on character vectors (non-empty pattern).
pub fn replace_chars(s: &Vec<char>, pat: &Vec<char>, rep: &Vec<char>) -> (r: Vec<char>)
    requires
        pat.len() > 0,
    ensures
        r@ == replace_all(s@, pat@, rep@),
{
    let mut out: Vec<char> = Vec::new();
    let mut i: usize = 0;
    assert(s@.skip(0) =~= s@);
    while i < s.len()
        invariant
            i <= s.len(),
            pat.len() > 0,
            replace_all(s@, pat@, rep@) == out@ + replace_all(s@.skip(i as int), pat@, rep@),
        decreases s.len() - i,
    {
        let ghost rest = s@.skip(i as int);
        if matches_at(s, pat, i) {
            out = concat_chars(&out, rep);
            assert(rest.skip(pat.len() as int) =~= s@.skip(i + pat.len()));
            i = i + pat.len();
        } else {
            out.push(s[i]);
            assert(rest.drop_first() =~= s@.skip(i + 1));
            i = i + 1;
        }
    }
    assert(s@.skip(i as int) =~= Seq::<char>::empty());
    out
}

/// `str::split_inclusive('\n')`: the pieces of `s`, each ending with its line feed,
/// except possibly the last.
pub open spec fn split_lines_incl(s: Seq<char>) -> Seq<Seq<char>>
    decreases s.len(),
{
    if s.len() == 0 {
        Seq::<Seq<char>>::empty()
    } else {
        let r = split_lines_incl(s.drop_last());
        if r.len() > 0 && r.last().last() != '\n' {
            r.update(r.len() - 1, r.last().push(s.last()))
        } else {
            r.push(seq![s.last()])
        }
    }
}

/// The text of one piece of `split_lines_incl` as `str::lines` yields it:
/// without its line feed, and without a carriage return that precedes it.
pub open spec fn line_body(piece: Seq<char>) -> Seq<char> {
    if piece.len() > 0 && piece.last() == '\n' {
        let p = piece.drop_last();
        if p.len() > 0 && p.last() == '\r' {
            p.drop_last()
        } else {
            p
        }
    } else {
        piece
    }
}

/// `str::lines`.
pub open spec fn lines_of(s: Seq<char>) -> Seq<Seq<char>> {
    split_lines_incl(s).map_values(|p: Seq<char>| line_body(p))
}

/// The concatenation of all pieces.
pub open spec fn concat_all(p: Seq<Seq<char>>) -> Seq<char>
    decreases p.len(),
{
    if p.len() == 0 {
        Seq::<char>::empty()
    } else {
        concat_all(p.drop_last()) + p.last()
    }
}

/// What every piece of `split_lines_incl` satisfies.
pub open spec fn incl_pieces_wf(p: Seq<Seq<char>>) -> bool {
    &&& forall|k: int| 0 <= k < p.len() ==> (#[trigger] p[k]).len() > 0
    &&& forall|k: int| 0 <= k < p.len() - 1 ==> (#[trigger] p[k]).last() == '\n'
}

pub proof fn lemma_split_lines_incl(s: Seq<char>)
    ensures
        incl_pieces_wf(split_lines_incl(s)),
        concat_all(split_lines_incl(s)) == s,
    decreases s.len(),
{
    if s.len() > 0 {
        let r = split_lines_incl(s.drop_last());
        lemma_split_lines_incl(s.drop_last());
        if r.len() > 0 && r.last().last() != '\n' {
            let u = r.update(r.len() - 1, r.last().push(s.last()));
            assert(u.drop_last() =~= r.drop_last());
            assert(concat_all(r) == concat_all(r.drop_last()) + r.last());
            assert(s =~= s.drop_last().push(s.last()));
        } else {
            let u = r.push(seq![s.last()]);
            assert(u.drop_last() =~= r);
            assert(s =~= s.drop_last().push(s.last()));
        }
    }
}

/// `str::split_inclusive('\n')` on a character vector.
pub fn split_lines_inclusive(s: &Vec<char>) -> (r: Vec<Vec<char>>)
    ensures
        views(r@) == split_lines_incl(s@),
{
    let mut pieces: Vec<Vec<char>> = Vec::new();
    let mut cur: Vec<char> = Vec::new();
    let mut i: usize = 0;
    assert(s@.take(0) =~= Seq::<char>::empty());
    while i < s.len()
        invariant
            i <= s.len(),
            forall|k: int| 0 <= k < pieces@.len() ==> (#[trigger] pieces@[k])@.len() > 0
                && pieces@[k]@.last() == '\n',
            cur@.len() == 0 || cur@.last() != '\n',
            split_lines_incl(s@.take(i as int)) == if cur@.len() == 0 {
                views(pieces@)
            } else {
                views(pieces@).push(cur@)
            },
        decreases s.len() - i,
    {
        let c = s[i];
        let ghost r = split_lines_incl(s@.take(i as int));
        let ghost old_cur = cur@;
        let was_empty = cur.len() == 0;
        let ghost old_pieces = views(pieces@);
        assert(s@.take(i + 1).drop_last() =~= s@.take(i as int));
        assert(s@.take(i + 1).last() == c);
        cur.push(c);
        let ghost next = split_lines_incl(s@.take(i + 1));
        if was_empty {
            assert(r == old_pieces);
            assert(r.len() > 0 ==> r.last() == pieces@[pieces@.len() - 1]@);
            assert(next == r.push(seq![c]));
            assert(cur@ =~= seq![c]);
            assert(next =~= views(pieces@).push(cur@));
        } else {
            assert(r == old_pieces.push(old_cur));
            assert(next == r.update(r.len() - 1, r.last().push(c)));
            assert(next =~= views(pieces@).push(cur@));
        }
        if c == '\n' {
            let done = cur;
            pieces.push(done);
            cur = Vec::new();
            assert(views(pieces@) =~= next);
        }
        i = i + 1;
    }
    assert(s@.take(s.len() as int) =~= s@);
    if cur.len() > 0 {
        pieces.push(cur);
    }
    assert(views(pieces@) == split_lines_incl(s@));
    pieces
}

/// The text of one line piece (see `line_body`).
pub fn line_body_chars(piece: &Vec<char>) -> (r: Vec<char>)
    ensures
        r@ == line_body(piece@),
{
    let n = piece.len();
    if n > 0 && piece[n - 1] == '\n' {
        if n > 1 && piece[n - 2] == '\r' {
            slice_chars(piece, 0, n - 2)
        } else {
            slice_chars(piece, 0, n - 1)
        }
    } else {
        slice_chars(piece, 0, n)
    }
}

/// `str::lines` on a character vector.
pub fn lines_chars(s: &Vec<char>) -> (r: Vec<Vec<char>>)
    ensures
        views(r@) == lines_of(s@),
{
    let pieces = split_lines_inclusive(s);
    let mut out: Vec<Vec<char>> = Vec::new();
    let mut i: usize = 0;
    while i < pieces.len()
        invariant
            i <= pieces.len(),
            views(pieces@) == split_lines_incl(s@),
            out@.len() == i,
            forall|k: int| 0 <= k < i ==> (#[trigger] out@[k])@ == line_body(pieces@[k]@),
        decreases pieces.len() - i,
    {
        let l = line_body_chars(&pieces[i]);
        out.push(l);
        i = i + 1;
    }
    assert(views(out@) =~= lines_of(s@));
    out
}

/// `pieces.join(sep)`.
pub open spec fn join(p: Seq<Seq<char>>, sep: Seq<char>) -> Seq<char>
    decreases p.len(),
{
    if p.len() == 0 {
        Seq::<char>::empty()
    } else if p.len() == 1 {
        p[0]
    } else {
        join(p.drop_last(), sep) + sep + p.last()
    }
}

/// `pieces.join(sep)` on character vectors.
pub fn join_chars(p: &Vec<Vec<char>>, sep: &Vec<char>) -> (r: Vec<char>)
    ensures
        r@ == join(views(p@), sep@),
{
    let mut out: Vec<char> = Vec::new();
    let mut i: usize = 0;
    while i < p.len()
        invariant
            i <= p.len(),
            out@ == join(views(p@).take(i as int), sep@),
        decreases p.len() - i,
    {
        let ghost prev = views(p@).take(i as int);
        assert(views(p@).take(i + 1).drop_last() =~= prev);
        if i > 0 {
            out = concat_chars(&out, sep);
        }
        out = concat_chars(&out, &p[i]);
        i = i + 1;
        if i == 1 {
            assert(views(p@).take(1) =~= seq![p@[0]@]);
        }
    }
    assert(views(p@).take(p.len() as int) =~= views(p@));
    out
}


/// Name for what `str::to_lowercase` returns (Unicode lower-casing).
pub uninterp spec fn unicode_lowercase(s: Seq<char>) -> Seq<char>;

/// Every character is ASCII.
pub open spec fn is_ascii_text(s: Seq<char>) -> bool {
    forall|i: int| 0 <= i < s.len() ==> (#[trigger] s[i] as u32) < 128
}

/// `str::to_lowercase`. Trusted: the result is the Unicode lower-casing of `s`, a
/// function of `s` alone; on ASCII text the Unicode lower-case mapping is the
/// ASCII one (`A`..`Z` to `a`..`z`, every other character kept). Nothing more is
/// claimed of other text.
#[verifier::external_body]
pub(crate) fn to_lowercase(s: &str) -> (r: String)
    ensures
        r@ == unicode_lowercase(s@),
        is_ascii_text(s@) ==> r@ == ascii_lower_seq(s@),
{
    s.to_lowercase()
}

/// Unicode lower-casing of a character vector.
pub fn lowercase_chars(s: &Vec<char>) -> (r: Vec<char>)
    ensures
        r@ == unicode_lowercase(s@),
        is_ascii_text(s@) ==> r@ == ascii_lower_seq(s@),
{
    let text = string_of(s.as_slice());
    let lower = to_lowercase(text.as_str());
    chars_of(lower.as_str())
}

/// `replace_all` with a one-character pattern and replacement maps each character.
pub proof fn lemma_replace_char(s: Seq<char>, p: char, r: char)
    ensures
        replace_all(s, seq![p], seq![r]).len() == s.len(),
        forall|k: int|
            0 <= k < s.len() ==> #[trigger] replace_all(s, seq![p], seq![r])[k] == if s[k] == p {
                r
            } else {
                s[k]
            },
    decreases s.len(),
{
    if s.len() > 0 {
        lemma_replace_char(s.drop_first(), p, r);
        let rest = replace_all(s.drop_first(), seq![p], seq![r]);
        let full = replace_all(s, seq![p], seq![r]);
        if s[0] == p {
            assert(seq![p] =~= s.subrange(0, 1));
            assert(s.skip(1) =~= s.drop_first());
            assert(full == seq![r] + rest);
        } else {
            assert(s.subrange(0, 1)[0] != seq![p][0]);
            assert(full == seq![s[0]] + rest);
        }
        assert forall|k: int| 0 <= k < s.len() implies #[trigger] replace_all(
            s,
            seq![p],
            seq![r],
        )[k] == if s[k] == p {
            r
        } else {
            s[k]
        } by {
            if k > 0 {
                assert(full[k] == rest[k - 1]);
                assert(s.drop_first()[k - 1] == s[k]);
            }
        }
    }
}


/// A line without line feed.
pub open spec fn no_newline(l: Seq<char>) -> bool {
    forall|k: int| 0 <= k < l.len() ==> l[k] != '\n'
}

/// A line as `str::lines` gives it back once a line feed follows it.
pub open spec fn strip_cr(l: Seq<char>) -> Seq<char> {
    if l.len() > 0 && l.last() == '\r' {
        l.drop_last()
    } else {
        l
    }
}

proof fn lemma_split_lines_last(s: Seq<char>)
    requires
        s.len() > 0,
    ensures
        split_lines_incl(s).len() > 0,
        split_lines_incl(s).last().len() > 0,
        split_lines_incl(s).last().last() == s.last(),
    decreases s.len(),
{
    if s.len() > 1 {
        lemma_split_lines_last(s.drop_last());
    }
}

/// Splitting after a line feed splits each part on its own.
proof fn lemma_split_lines_append(a: Seq<char>, b: Seq<char>)
    requires
        a.len() == 0 || a.last() == '\n',
    ensures
        split_lines_incl(a + b) == split_lines_incl(a) + split_lines_incl(b),
    decreases b.len(),
{
    if b.len() == 0 {
        assert(a + b =~= a);
        assert(split_lines_incl(a) + split_lines_incl(b) =~= split_lines_incl(a));
    } else {
        lemma_split_lines_append(a, b.drop_last());
        assert((a + b).drop_last() =~= a + b.drop_last());
        assert((a + b).last() == b.last());
        let x = split_lines_incl(a);
        let y = split_lines_incl(b.drop_last());
        let c = b.last();
        if a.len() > 0 {
            lemma_split_lines_last(a);
        }
        if y.len() > 0 {
            assert((x + y).last() == y.last());
            if y.last().last() != '\n' {
                assert((x + y).update((x + y).len() - 1, y.last().push(c)) =~= x + y.update(
                    y.len() - 1,
                    y.last().push(c),
                ));
            } else {
                assert((x + y).push(seq![c]) =~= x + y.push(seq![c]));
            }
        } else {
            assert(x + y =~= x);
            assert(x.push(seq![c]) =~= x + y.push(seq![c]));
        }
    }
}

proof fn lemma_split_lines_one(l: Seq<char>)
    requires
        no_newline(l),
    ensures
        l.len() > 0 ==> split_lines_incl(l) == seq![l],
        l.len() == 0 ==> split_lines_incl(l) == Seq::<Seq<char>>::empty(),
    decreases l.len(),
{
    if l.len() > 0 {
        lemma_split_lines_one(l.drop_last());
        if l.len() > 1 {
            assert(l.drop_last().last() == l[l.len() - 2]);
            assert(l.drop_last().push(l.last()) =~= l);
            assert(seq![l.drop_last()].update(0, l.drop_last().push(l.last())) =~= seq![l]);
        } else {
            assert(seq![l.last()] =~= l);
        }
    }
}

proof fn lemma_split_lines_terminated(l: Seq<char>)
    requires
        no_newline(l),
    ensures
        split_lines_incl(l.push('\n')) == seq![l.push('\n')],
{
    lemma_split_lines_one(l);
    assert(l.push('\n').drop_last() =~= l);
    if l.len() > 0 {
        assert(seq![l].update(0, l.push('\n')) =~= seq![l.push('\n')]);
    } else {
        assert(seq!['\n'] =~= l.push('\n'));
    }
}

/// The pieces of lines joined by line feeds, with a final line feed.
proof fn lemma_split_joined(m: Seq<Seq<char>>)
    requires
        m.len() > 0,
        forall|k: int| 0 <= k < m.len() ==> no_newline(#[trigger] m[k]),
    ensures
        split_lines_incl(join(m, seq!['\n']).push('\n')) == m.map_values(
            |l: Seq<char>| l.push('\n'),
        ),
    decreases m.len(),
{
    if m.len() == 1 {
        lemma_split_lines_terminated(m[0]);
        assert(m.map_values(|l: Seq<char>| l.push('\n')) =~= seq![m[0].push('\n')]);
    } else {
        let d = m.drop_last();
        assert forall|k: int| 0 <= k < d.len() implies no_newline(#[trigger] d[k]) by {
            assert(d[k] == m[k]);
        }
        lemma_split_joined(d);
        let a = join(d, seq!['\n']).push('\n');
        let b = m.last().push('\n');
        assert(join(m, seq!['\n']).push('\n') =~= a + b);
        lemma_split_lines_append(a, b);
        lemma_split_lines_terminated(m.last());
        assert(m.map_values(|l: Seq<char>| l.push('\n')) =~= d.map_values(
            |l: Seq<char>| l.push('\n'),
        ) + seq![b]);
    }
}

/// `str::lines` of lines joined by line feeds, with a final line feed.
pub proof fn lemma_lines_of_joined(m: Seq<Seq<char>>)
    requires
        m.len() > 0,
        forall|k: int| 0 <= k < m.len() ==> no_newline(#[trigger] m[k]),
    ensures
        lines_of(join(m, seq!['\n']).push('\n')) == m.map_values(|l: Seq<char>| strip_cr(l)),
{
    lemma_split_joined(m);
    let p = m.map_values(|l: Seq<char>| l.push('\n'));
    assert forall|k: int| 0 <= k < m.len() implies line_body(p[k]) == strip_cr(m[k]) by {
        assert(p[k].drop_last() =~= m[k]);
    }
    assert(lines_of(join(m, seq!['\n']).push('\n')) =~= m.map_values(
        |l: Seq<char>| strip_cr(l),
    ));
}

/// The lines of any text hold no line feed.
pub proof fn lemma_lines_no_newline(s: Seq<char>)
    ensures
        forall|k: int| 0 <= k < lines_of(s).len() ==> no_newline(#[trigger] lines_of(s)[k]),
    decreases s.len(),
{
    lemma_split_pieces_inner(s);
    let p = split_lines_incl(s);
    assert forall|k: int| 0 <= k < lines_of(s).len() implies no_newline(
        #[trigger] lines_of(s)[k],
    ) by {
        let q = p[k];
        let l = lines_of(s)[k];
        assert(l == line_body(q));
        assert forall|j: int| 0 <= j < l.len() implies l[j] != '\n' by {
            assert(l[j] == q[j]);
        }
    }
}

/// Inside a piece of `split_lines_incl`, a line feed can only be the last character.
proof fn lemma_split_pieces_inner(s: Seq<char>)
    ensures
        forall|k: int, j: int|
            0 <= k < split_lines_incl(s).len() && 0 <= j < split_lines_incl(s)[k].len() - 1
                ==> #[trigger] split_lines_incl(s)[k][j] != '\n',
    decreases s.len(),
{
    if s.len() > 0 {
        lemma_split_pieces_inner(s.drop_last());
        let r = split_lines_incl(s.drop_last());
        let n = split_lines_incl(s);
        assert forall|k: int, j: int|
            0 <= k < n.len() && 0 <= j < n[k].len() - 1 implies #[trigger] n[k][j] != '\n' by {
            if k < r.len() {
                if r.len() > 0 && r.last().last() != '\n' && k == r.len() - 1 {
                    assert(n[k] == r[k].push(s.last()));
                    if j < r[k].len() - 1 {
                        assert(n[k][j] == r[k][j]);
                    } else {
                        assert(n[k][j] == r[k].last());
                    }
                } else {
                    assert(n[k] == r[k]);
                }
            }
        }
    }
}

/// Trimming ignores one more whitespace character at the end.
pub proof fn lemma_trim_push_ws(s: Seq<char>, c: char)
    requires
        is_ws(c),
    ensures
        trim(s.push(c)) == trim(s),
    decreases s.len(),
{
    lemma_trim_start_push(s, c);
    if trim_start(s).len() > 0 {
        assert(trim_start(s).push(c).drop_last() =~= trim_start(s));
    }
}

proof fn lemma_trim_start_push(s: Seq<char>, c: char)
    requires
        is_ws(c),
    ensures
        trim_start(s.push(c)) == if trim_start(s).len() > 0 {
            trim_start(s).push(c)
        } else {
            Seq::<char>::empty()
        },
    decreases s.len(),
{
    if s.len() == 0 {
        assert(s.push(c).drop_first() =~= Seq::<char>::empty());
        assert(trim_start(Seq::<char>::empty()) == Seq::<char>::empty());
    } else {
        assert(s.push(c).drop_first() =~= s.drop_first().push(c));
        assert(s.push(c)[0] == s[0]);
        if is_ws(s[0]) {
            lemma_trim_start_push(s.drop_first(), c);
        }
    }
}

/// A text that starts and ends with non-whitespace is its own trim.
pub proof fn lemma_trim_unchanged(s: Seq<char>)
    requires
        s.len() > 0,
        !is_ws(s[0]),
        !is_ws(s.last()),
    ensures
        trim(s) == s,
{
}

proof fn lemma_trim_start_first(s: Seq<char>)
    ensures
        trim_start(s).len() > 0 ==> !is_ws(trim_start(s)[0]),
    decreases s.len(),
{
    if s.len() > 0 && is_ws(s[0]) {
        lemma_trim_start_first(s.drop_first());
    }
}

proof fn lemma_trim_end_shape(s: Seq<char>)
    ensures
        trim_end(s).len() <= s.len(),
        trim_end(s) == s.take(trim_end(s).len() as int),
        trim_end(s).len() > 0 ==> !is_ws(trim_end(s).last()),
    decreases s.len(),
{
    if s.len() > 0 && is_ws(s.last()) {
        lemma_trim_end_shape(s.drop_last());
        assert(s.drop_last().take(trim_end(s).len() as int) =~= s.take(trim_end(s).len() as int));
    } else {
        assert(s.take(s.len() as int) =~= s);
    }
}

/// Trimming twice gives what trimming once gave.
pub proof fn lemma_trim_idempotent(s: Seq<char>)
    ensures
        trim(trim(s)) == trim(s),
{
    let ts = trim_start(s);
    let r = trim(s);
    lemma_trim_start_first(s);
    lemma_trim_end_shape(ts);
    if r.len() > 0 {
        assert(r[0] == ts[0]);
        lemma_trim_unchanged(r);
    }
}

} // verus!
