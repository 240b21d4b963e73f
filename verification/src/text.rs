//! Character-level text handling shared by the parsers: whitespace,
//! trimming, substring search and whitespace-separated words.
use vstd::prelude::*;
use vstd::string::*;

verus! {

/// Unicode `White_Space`, the property that `char::is_whitespace` tests.
pub open spec fn is_ws(c: char) -> bool {
    let u = c as u32;
    (0x09 <= u && u <= 0x0d) || u == 0x20 || u == 0x85 || u == 0xa0 || u == 0x1680 || (0x2000 <= u
        && u <= 0x200a) || u == 0x2028 || u == 0x2029 || u == 0x202f || u == 0x205f || u == 0x3000
}

/// Whether `c` is Unicode whitespace.
pub fn is_whitespace(c: char) -> (b: bool)
    ensures
        b == is_ws(c),
{
    let u = c as u32;
    (0x09 <= u && u <= 0x0d) || u == 0x20 || u == 0x85 || u == 0xa0 || u == 0x1680 || (0x2000 <= u
        && u <= 0x200a) || u == 0x2028 || u == 0x2029 || u == 0x202f || u == 0x205f || u == 0x3000
}

/// The characters of a string slice, in order.
pub fn chars_of(s: &str) -> (v: Vec<char>)
    ensures
        v@ == s@,
{
    let mut v: Vec<char> = Vec::new();
    for c in it: s.chars()
        invariant
            v@ == it.seq().take(it.index() as int),
            it.seq() == s@,
    {
        v.push(c);
    }
    v
}

/// A new string holding the characters `from..to` of `s`.
pub fn string_of_range(s: &str, from: usize, to: usize) -> (r: String)
    requires
        from <= to <= s@.len(),
    ensures
        r@ == s@.subrange(from as int, to as int),
{
    String::from_str(s.substring_char(from, to))
}

/// `s` without its leading whitespace.
pub open spec fn trim_start_spec(s: Seq<char>) -> Seq<char>
    decreases s.len(),
{
    if s.len() > 0 && is_ws(s[0]) {
        trim_start_spec(s.drop_first())
    } else {
        s
    }
}

/// `s` without its trailing whitespace.
pub open spec fn trim_end_spec(s: Seq<char>) -> Seq<char>
    decreases s.len(),
{
    if s.len() > 0 && is_ws(s.last()) {
        trim_end_spec(s.drop_last())
    } else {
        s
    }
}

/// `s` without leading and trailing whitespace, as `str::trim` gives it.
pub open spec fn trimmed(s: Seq<char>) -> Seq<char> {
    trim_end_spec(trim_start_spec(s))
}

/// The bounds of the trimmed part of the characters `lo..hi` of `cs`.
pub fn trim_bounds(cs: &Vec<char>, lo: usize, hi: usize) -> (r: (usize, usize))
    requires
        lo <= hi <= cs@.len(),
    ensures
        lo <= r.0 <= r.1 <= hi,
        cs@.subrange(r.0 as int, r.1 as int) == trimmed(cs@.subrange(lo as int, hi as int)),
{
    let mut a = lo;
    while a < hi && is_whitespace(cs[a])
        invariant
            lo <= a <= hi <= cs@.len(),
            trim_start_spec(cs@.subrange(lo as int, hi as int)) == trim_start_spec(
                cs@.subrange(a as int, hi as int),
            ),
        decreases hi - a,
    {
        assert(cs@.subrange(a as int, hi as int).drop_first() =~= cs@.subrange(
            a + 1,
            hi as int,
        ));
        a = a + 1;
    }
    let ghost mid = cs@.subrange(a as int, hi as int);
    assert(trim_start_spec(mid) == mid);
    let mut b = hi;
    while b > a && is_whitespace(cs[b - 1])
        invariant
            lo <= a <= b <= hi <= cs@.len(),
            mid == cs@.subrange(a as int, hi as int),
            trim_end_spec(mid) == trim_end_spec(cs@.subrange(a as int, b as int)),
        decreases b - a,
    {
        assert(cs@.subrange(a as int, b as int).drop_last() =~= cs@.subrange(
            a as int,
            b - 1,
        ));
        b = b - 1;
    }
    (a, b)
}

/// `s` with leading and trailing whitespace removed.
pub fn trim(s: &str) -> (r: String)
    ensures
        r@ == trimmed(s@),
{
    let cs = chars_of(s);
    let (a, b) = trim_bounds(&cs, 0, cs.len());
    assert(cs@.subrange(0, cs@.len() as int) =~= s@);
    string_of_range(s, a, b)
}

/// `p` occurs in `s` starting at index `i`.
pub open spec fn occurs_at(s: Seq<char>, p: Seq<char>, i: int) -> bool {
    0 <= i && i + p.len() <= s.len() && s.subrange(i, i + p.len()) == p
}

/// `p` occurs somewhere in `s`, as `str::contains` tests.
pub open spec fn has_substring(s: Seq<char>, p: Seq<char>) -> bool {
    exists|i: int| occurs_at(s, p, i)
}

/// `s` begins with `p`, as `str::starts_with` tests.
pub open spec fn has_prefix(s: Seq<char>, p: Seq<char>) -> bool {
    occurs_at(s, p, 0)
}

/// `s` ends with `p`, as `str::ends_with` tests.
pub open spec fn has_suffix(s: Seq<char>, p: Seq<char>) -> bool {
    occurs_at(s, p, s.len() - p.len())
}

/// Whether `p` occurs in `cs` at index `i`.
pub fn matches_at(cs: &Vec<char>, i: usize, p: &Vec<char>) -> (b: bool)
    ensures
        b == occurs_at(cs@, p@, i as int),
{
    if i > cs.len() || p.len() > cs.len() - i {
        return false;
    }
    let mut j: usize = 0;
    while j < p.len()
        invariant
            i + p@.len() <= cs@.len() <= usize::MAX,
            j <= p@.len(),
            forall|k: int| 0 <= k < j ==> cs@[i + k] == p@[k],
        decreases p@.len() - j,
    {
        if cs[i + j] != p[j] {
            assert(cs@.subrange(i as int, i + p@.len())[j as int] != p@[j as int]);
            return false;
        }
        j = j + 1;
    }
    assert(cs@.subrange(i as int, i + p@.len()) =~= p@);
    true
}

/// Whether `p` occurs anywhere in `cs`.
pub fn contains_chars(cs: &Vec<char>, p: &Vec<char>) -> (b: bool)
    ensures
        b == has_substring(cs@, p@),
{
    let mut i: usize = 0;
    while i < cs.len()
        invariant
            i <= cs@.len(),
            forall|k: int| 0 <= k < i ==> !#[trigger] occurs_at(cs@, p@, k),
        decreases cs@.len() - i,
    {
        if matches_at(cs, i, p) {
            return true;
        }
        i = i + 1;
    }
    if matches_at(cs, i, p) {
        return true;
    }
    assert forall|k: int| !#[trigger] occurs_at(cs@, p@, k) by {
        if 0 <= k && k <= i {
        }
    }
    false
}

/// Whether `s` contains `p`.
pub fn contains(s: &str, p: &str) -> (b: bool)
    ensures
        b == has_substring(s@, p@),
{
    contains_chars(&chars_of(s), &chars_of(p))
}

/// Whether `s` starts with `p`.
pub fn starts_with(s: &str, p: &str) -> (b: bool)
    ensures
        b == has_prefix(s@, p@),
{
    matches_at(&chars_of(s), 0, &chars_of(p))
}

/// Whether `s` ends with `p`.
pub fn ends_with(s: &str, p: &str) -> (b: bool)
    ensures
        b == has_suffix(s@, p@),
{
    let cs = chars_of(s);
    let ps = chars_of(p);
    if ps.len() > cs.len() {
        return false;
    }
    matches_at(&cs, cs.len() - ps.len(), &ps)
}

/// Whether two character vectors hold the same characters.
pub fn chars_equal(a: &Vec<char>, b: &Vec<char>) -> (r: bool)
    ensures
        r == (a@ == b@),
{
    if a.len() != b.len() {
        return false;
    }
    let mut i: usize = 0;
    while i < a.len()
        invariant
            a@.len() == b@.len(),
            i <= a@.len(),
            forall|k: int| 0 <= k < i ==> a@[k] == b@[k],
        decreases a@.len() - i,
    {
        if a[i] != b[i] {
            return false;
        }
        i = i + 1;
    }
    assert(a@ =~= b@);
    true
}

/// The views of a sequence of character vectors.
pub open spec fn views(v: Seq<Vec<char>>) -> Seq<Seq<char>> {
    Seq::new(v.len(), |i: int| v[i]@)
}

/// The whitespace-separated words of `s`, in order, as `str::split_whitespace`
/// yields them: each maximal run of non-whitespace characters is a word.
/// Stated from the left: a character extends the word before it when the
/// character just before it is no whitespace.
pub open spec fn words(s: Seq<char>) -> Seq<Seq<char>>
    decreases s.len(),
{
    if s.len() == 0 {
        Seq::empty()
    } else {
        let w = words(s.drop_last());
        if is_ws(s.last()) {
            w
        } else if s.len() >= 2 && !is_ws(s[s.len() - 2]) {
            w.drop_last().push(w.last().push(s.last()))
        } else {
            w.push(seq![s.last()])
        }
    }
}

/// The words of the characters `cs`.
pub fn split_words(cs: &Vec<char>) -> (r: Vec<Vec<char>>)
    ensures
        views(r@) == words(cs@),
{
    let mut out: Vec<Vec<char>> = Vec::new();
    let mut cur: Vec<char> = Vec::new();
    let mut i: usize = 0;
    assert(cs@.take(0) =~= Seq::<char>::empty());
    assert(views(out@) =~= Seq::<Seq<char>>::empty());
    while i < cs.len()
        invariant
            i <= cs@.len(),
            words(cs@.take(i as int)) == views(out@) + (if cur@.len() > 0 {
                seq![cur@]
            } else {
                Seq::<Seq<char>>::empty()
            }),
            cur@.len() > 0 <==> (i > 0 && !is_ws(cs@[i - 1])),
        decreases cs@.len() - i,
    {
        let c = cs[i];
        let ghost before = views(out@);
        assert(cs@.take(i + 1).drop_last() =~= cs@.take(i as int));
        assert(cs@.take(i + 1).last() == c);
        if i > 0 {
            assert(cs@.take(i + 1)[i - 1] == cs@[i - 1]);
        }
        if is_whitespace(c) {
            if cur.len() > 0 {
                out.push(cur);
                assert(views(out@) =~= before + seq![cur@]);
                cur = Vec::new();
            }
            assert(views(out@) + Seq::<Seq<char>>::empty() =~= views(out@));
        } else {
            if cur.len() > 0 {
                let ghost w = before + seq![cur@];
                assert(w.drop_last() =~= before);
                cur.push(c);
                assert(before.push(cur@) =~= before + seq![cur@]);
            } else {
                cur.push(c);
                assert(cur@ =~= seq![c]);
                assert((before + Seq::<Seq<char>>::empty()).push(seq![c]) =~= before + seq![cur@]);
            }
        }
        i = i + 1;
    }
    let ghost before = views(out@);
    if cur.len() > 0 {
        out.push(cur);
        assert(views(out@) =~= before + seq![cur@]);
    } else {
        assert(before + Seq::<Seq<char>>::empty() =~= before);
    }
    assert(cs@.take(cs@.len() as int) =~= cs@);
    out
}

/// The number of whitespace-separated words of `s`.
pub fn word_count(s: &str) -> (n: usize)
    ensures
        n == words(s@).len(),
{
    split_words(&chars_of(s)).len()
}

/// Whether `w` is one of `ws`.
pub fn contains_word(ws: &Vec<Vec<char>>, w: &Vec<char>) -> (b: bool)
    ensures
        b == views(ws@).contains(w@),
{
    let mut i: usize = 0;
    while i < ws.len()
        invariant
            i <= ws@.len(),
            forall|k: int| 0 <= k < i ==> ws@[k]@ != w@,
        decreases ws@.len() - i,
    {
        if chars_equal(&ws[i], w) {
            assert(views(ws@)[i as int] == w@);
            return true;
        }
        i = i + 1;
    }
    assert(!views(ws@).contains(w@)) by {
        if views(ws@).contains(w@) {
            let k = choose|k: int| 0 <= k < views(ws@).len() && views(ws@)[k] == w@;
            assert(ws@[k]@ == w@);
        }
    }
    false
}

/// The number of bytes that `c` takes in UTF-8.
pub open spec fn utf8_width(c: char) -> nat {
    let u = c as u32;
    if u < 0x80 {
        1
    } else if u < 0x800 {
        2
    } else if u < 0x10000 {
        3
    } else {
        4
    }
}

/// The number of bytes that `s` takes in UTF-8.
pub open spec fn utf8_len(s: Seq<char>) -> nat
    decreases s.len(),
{
    if s.len() == 0 {
        0
    } else {
        utf8_len(s.drop_last()) + utf8_width(s.last())
    }
}

/// The byte offset `b` of `s` falls between two characters, and `k` of them precede it.
pub open spec fn char_boundary_at(s: Seq<char>, b: nat, k: int) -> bool {
    0 <= k <= s.len() && utf8_len(s.take(k)) == b
}

/// The byte offset `b` of `s` falls between two characters (or at an end).
pub open spec fn is_char_boundary(s: Seq<char>, b: nat) -> bool {
    exists|k: int| char_boundary_at(s, b, k)
}

/// The number of characters of `s` before its byte offset `b`.
pub open spec fn chars_before_byte(s: Seq<char>, b: nat) -> int {
    choose|k: int| char_boundary_at(s, b, k)
}

fn width_of(c: char) -> (w: usize)
    ensures
        w == utf8_width(c),
{
    let u = c as u32;
    if u < 0x80 {
        1
    } else if u < 0x800 {
        2
    } else if u < 0x10000 {
        3
    } else {
        4
    }
}

proof fn lemma_utf8_len_strict(s: Seq<char>, i: int, j: int)
    requires
        0 <= i < j <= s.len(),
    ensures
        utf8_len(s.take(i)) < utf8_len(s.take(j)),
    decreases j - i,
{
    assert(s.take(j).drop_last() =~= s.take(j - 1));
    if i < j - 1 {
        lemma_utf8_len_strict(s, i, j - 1);
    }
}

/// At most one character index lies at a given byte offset.
pub proof fn lemma_boundary_unique(s: Seq<char>, b: nat, k: int)
    requires
        char_boundary_at(s, b, k),
    ensures
        chars_before_byte(s, b) == k,
{
    let j = chars_before_byte(s, b);
    assert(char_boundary_at(s, b, j));
    if j < k {
        lemma_utf8_len_strict(s, j, k);
    } else if k < j {
        lemma_utf8_len_strict(s, k, j);
    }
}

/// The index of the character that starts at byte offset `b` of `cs`, if
/// `b` lies on a character boundary.
pub fn char_index_of_byte(cs: &Vec<char>, b: usize) -> (r: Option<usize>)
    requires
        b + 4 <= usize::MAX,
    ensures
        r is Some <==> is_char_boundary(cs@, b as nat),
        r matches Some(k) ==> k <= cs@.len() && k == chars_before_byte(cs@, b as nat),
{
    let mut i: usize = 0;
    let mut acc: usize = 0;
    assert(cs@.take(0) =~= Seq::<char>::empty());
    while i < cs.len() && acc < b
        invariant
            i <= cs@.len(),
            acc == utf8_len(cs@.take(i as int)),
            acc <= b + 4,
            b + 4 <= usize::MAX,
            i > 0 ==> utf8_len(cs@.take(i - 1)) < b,
        decreases cs@.len() - i,
    {
        assert(cs@.take(i + 1).drop_last() =~= cs@.take(i as int));
        acc = acc + width_of(cs[i]);
        i = i + 1;
    }
    if acc == b {
        proof {
            assert(char_boundary_at(cs@, b as nat, i as int));
            lemma_boundary_unique(cs@, b as nat, i as int);
        }
        Some(i)
    } else {
        proof {
            assert forall|k: int| !#[trigger] char_boundary_at(cs@, b as nat, k) by {
                if 0 <= k <= cs@.len() {
                    if k < i {
                        if k < i - 1 {
                            lemma_utf8_len_strict(cs@, k, i - 1);
                        }
                    } else if k > i {
                        lemma_utf8_len_strict(cs@, i as int, k);
                    }
                }
            }
        }
        None
    }
}

/// The pieces of `s` between newline characters, one more than there are newlines.
pub open spec fn newline_pieces(s: Seq<char>) -> Seq<Seq<char>>
    decreases s.len(),
{
    if s.len() == 0 {
        seq![Seq::empty()]
    } else {
        let p = newline_pieces(s.drop_last());
        if s.last() == '\n' {
            p.push(Seq::empty())
        } else {
            p.drop_last().push(p.last().push(s.last()))
        }
    }
}

/// `l` without one trailing carriage return.
pub open spec fn strip_cr(l: Seq<char>) -> Seq<char> {
    if l.len() > 0 && l.last() == '\r' {
        l.drop_last()
    } else {
        l
    }
}

/// The lines of `s` as `str::lines` and `BufRead::lines` give them: the text
/// is cut at each `\n`; a line that a `\n` ends loses that `\n` and one `\r`
/// before it; the text after the last `\n` is a last line unless it is empty.
pub open spec fn text_lines(s: Seq<char>) -> Seq<Seq<char>> {
    let p = newline_pieces(s);
    Seq::new((p.len() - 1) as nat, |i: int| strip_cr(p[i])) + if p.last().len() > 0 {
        seq![p.last()]
    } else {
        Seq::<Seq<char>>::empty()
    }
}

/// Any text is at least one piece.
pub proof fn lemma_newline_pieces_nonempty(s: Seq<char>)
    ensures
        newline_pieces(s).len() >= 1,
    decreases s.len(),
{
    if s.len() > 0 {
        lemma_newline_pieces_nonempty(s.drop_last());
    }
}

/// The views of a sequence of strings.
pub open spec fn string_views(v: Seq<String>) -> Seq<Seq<char>> {
    Seq::new(v.len(), |i: int| v[i]@)
}

/// The lines of `text`.
pub fn split_lines(text: &str) -> (r: Vec<String>)
    ensures
        string_views(r@) == text_lines(text@),
{
    let cs = chars_of(text);
    let mut out: Vec<String> = Vec::new();
    let mut start: usize = 0;
    let mut i: usize = 0;
    assert(cs@.take(0) =~= Seq::<char>::empty());
    while i < cs.len()
        invariant
            cs@ == text@,
            start <= i <= cs@.len(),
            newline_pieces(cs@.take(i as int)).len() == out@.len() + 1,
            newline_pieces(cs@.take(i as int)).last() == cs@.subrange(start as int, i as int),
            forall|j: int|
                0 <= j < out@.len() ==> #[trigger] out@[j]@ == strip_cr(
                    newline_pieces(cs@.take(i as int))[j],
                ),
        decreases cs@.len() - i,
    {
        let ghost p = newline_pieces(cs@.take(i as int));
        assert(cs@.take(i + 1).drop_last() =~= cs@.take(i as int));
        assert(cs@.take(i + 1).last() == cs@[i as int]);
        if cs[i] == '\n' {
            let end = if i > start && cs[i - 1] == '\r' {
                i - 1
            } else {
                i
            };
            let line = string_of_range(text, start, end);
            proof {
                let l = cs@.subrange(start as int, i as int);
                if i > start && cs@[i - 1] == '\r' {
                    assert(l.drop_last() =~= cs@.subrange(start as int, end as int));
                } else {
                    assert(l =~= cs@.subrange(start as int, end as int));
                }
                assert(line@ == strip_cr(p.last()));
            }
            out.push(line);
            start = i + 1;
            assert(cs@.subrange(start as int, start as int) =~= Seq::<char>::empty());
        } else {
            assert(cs@.subrange(start as int, i + 1) =~= cs@.subrange(start as int, i as int).push(
                cs@[i as int],
            ));
        }
        i = i + 1;
    }
    assert(cs@.take(cs@.len() as int) =~= cs@);
    let ghost p = newline_pieces(cs@);
    let ghost before = string_views(out@);
    assert(before =~= Seq::new((p.len() - 1) as nat, |j: int| strip_cr(p[j])));
    if start < cs.len() {
        let line = string_of_range(text, start, cs.len());
        out.push(line);
        assert(string_views(out@) =~= before + seq![p.last()]);
    } else {
        assert(p.last().len() == 0);
        assert(string_views(out@) =~= before + Seq::<Seq<char>>::empty());
    }
    out
}

/// `s` with every occurrence of `p` replaced by `r`, occurrences taken from
/// the left without overlap, as `str::replace` does.
pub open spec fn replace_spec(s: Seq<char>, p: Seq<char>, r: Seq<char>) -> Seq<char>
    decreases s.len(),
{
    if p.len() == 0 || s.len() == 0 {
        s
    } else if occurs_at(s, p, 0) {
        r + replace_spec(s.skip(p.len() as int), p, r)
    } else {
        seq![s[0]] + replace_spec(s.drop_first(), p, r)
    }
}

proof fn lemma_occurs_shift(s: Seq<char>, p: Seq<char>, i: int)
    requires
        0 <= i <= s.len(),
    ensures
        occurs_at(s.skip(i), p, 0) == occurs_at(s, p, i),
{
    if i + p.len() <= s.len() {
        assert(s.skip(i).subrange(0, p.len() as int) =~= s.subrange(i, i + p.len()));
    }
}

/// `s` with every occurrence of the non-empty `p` replaced by `r`.
pub fn replace_all(s: &str, p: &str, r: &str) -> (out: String)
    requires
        p@.len() > 0,
    ensures
        out@ == replace_spec(s@, p@, r@),
{
    let cs = chars_of(s);
    let ps = chars_of(p);
    let mut out = String::new();
    let mut run: usize = 0;
    let mut i: usize = 0;
    assert(cs@.skip(0) =~= cs@);
    assert(out@ + cs@.subrange(0, 0) =~= Seq::<char>::empty());
    while i < cs.len()
        invariant
            cs@ == s@,
            ps@ == p@,
            p@.len() > 0,
            run <= i <= cs@.len(),
            replace_spec(s@, p@, r@) == out@ + cs@.subrange(run as int, i as int) + replace_spec(
                cs@.skip(i as int),
                p@,
                r@,
            ),
        decreases cs@.len() - i,
    {
        proof {
            lemma_occurs_shift(cs@, ps@, i as int);
        }
        if matches_at(&cs, i, &ps) {
            let piece = string_of_range(s, run, i);
            let ghost before = out@;
            out.append(piece.as_str());
            out.append(r);
            assert(cs@.skip(i as int).skip(ps@.len() as int) =~= cs@.skip(i + ps@.len()));
            assert(before + cs@.subrange(run as int, i as int) + (r@ + replace_spec(
                cs@.skip(i + ps@.len()),
                p@,
                r@,
            )) =~= out@ + cs@.subrange((i + ps@.len()) as int, (i + ps@.len()) as int)
                + replace_spec(cs@.skip(i + ps@.len()), p@, r@));
            i = i + ps.len();
            run = i;
        } else {
            assert(cs@.skip(i as int).drop_first() =~= cs@.skip(i + 1));
            assert(cs@.skip(i as int)[0] == cs@[i as int]);
            assert(out@ + cs@.subrange(run as int, i as int) + (seq![cs@[i as int]] + replace_spec(
                cs@.skip(i + 1),
                p@,
                r@,
            )) =~= out@ + cs@.subrange(run as int, i + 1) + replace_spec(cs@.skip(i + 1), p@, r@));
            i = i + 1;
        }
    }
    let piece = string_of_range(s, run, i);
    let ghost before = out@;
    out.append(piece.as_str());
    assert(cs@.skip(i as int) =~= Seq::<char>::empty());
    assert(before + cs@.subrange(run as int, i as int) + Seq::<char>::empty() =~= out@);
    out
}

/// The pieces of `s` around the occurrences of `p` (taken from the left
/// without overlap), `cur` being the start of the first piece, as `str::split`
/// with a string pattern yields them.
pub open spec fn split_from(s: Seq<char>, p: Seq<char>, cur: Seq<char>) -> Seq<Seq<char>>
    decreases s.len(),
{
    if p.len() == 0 || s.len() == 0 {
        seq![cur + s]
    } else if occurs_at(s, p, 0) {
        seq![cur] + split_from(s.skip(p.len() as int), p, Seq::empty())
    } else {
        split_from(s.drop_first(), p, cur.push(s[0]))
    }
}

/// The pieces of `s` around the occurrences of `p`.
pub open spec fn split_spec(s: Seq<char>, p: Seq<char>) -> Seq<Seq<char>> {
    split_from(s, p, Seq::empty())
}

/// The pieces of `s` around the occurrences of the non-empty `p`.
pub fn split_on(s: &str, p: &str) -> (out: Vec<String>)
    requires
        p@.len() > 0,
    ensures
        string_views(out@) == split_spec(s@, p@),
{
    let cs = chars_of(s);
    let ps = chars_of(p);
    let mut out: Vec<String> = Vec::new();
    let mut run: usize = 0;
    let mut i: usize = 0;
    assert(cs@.skip(0) =~= cs@);
    assert(cs@.subrange(0, 0) =~= Seq::<char>::empty());
    assert(string_views(out@) =~= Seq::<Seq<char>>::empty());
    while i < cs.len()
        invariant
            cs@ == s@,
            ps@ == p@,
            p@.len() > 0,
            run <= i <= cs@.len(),
            split_spec(s@, p@) == string_views(out@) + split_from(
                cs@.skip(i as int),
                p@,
                cs@.subrange(run as int, i as int),
            ),
        decreases cs@.len() - i,
    {
        proof {
            lemma_occurs_shift(cs@, ps@, i as int);
        }
        if matches_at(&cs, i, &ps) {
            let piece = string_of_range(s, run, i);
            let ghost before = string_views(out@);
            out.push(piece);
            assert(string_views(out@) =~= before + seq![cs@.subrange(run as int, i as int)]);
            assert(cs@.skip(i as int).skip(ps@.len() as int) =~= cs@.skip(i + ps@.len()));
            assert(cs@.subrange((i + ps@.len()) as int, (i + ps@.len()) as int)
                =~= Seq::<char>::empty());
            assert(before + (seq![cs@.subrange(run as int, i as int)] + split_from(
                cs@.skip(i + ps@.len()),
                p@,
                Seq::empty(),
            )) =~= string_views(out@) + split_from(cs@.skip(i + ps@.len()), p@, Seq::empty()));
            i = i + ps.len();
            run = i;
        } else {
            assert(cs@.skip(i as int).drop_first() =~= cs@.skip(i + 1));
            assert(cs@.skip(i as int)[0] == cs@[i as int]);
            assert(cs@.subrange(run as int, i as int).push(cs@[i as int]) =~= cs@.subrange(
                run as int,
                i + 1,
            ));
            i = i + 1;
        }
    }
    let piece = string_of_range(s, run, i);
    let ghost before = string_views(out@);
    out.push(piece);
    assert(cs@.skip(i as int) =~= Seq::<char>::empty());
    assert(cs@.subrange(run as int, i as int) + Seq::<char>::empty() =~= cs@.subrange(
        run as int,
        i as int,
    ));
    assert(string_views(out@) =~= before + seq![cs@.subrange(run as int, i as int)]);
    out
}

/// Whether two strings hold the same characters.
pub fn str_eq(a: &str, b: &str) -> (r: bool)
    ensures
        r == (a@ == b@),
{
    chars_equal(&chars_of(a), &chars_of(b))
}

/// The decimal digit `d` (below ten) as a character.
pub open spec fn digit_char(d: nat) -> char {
    (0x30 + d) as char
}

/// The decimal numeral of `n`, without leading zeros.
pub open spec fn decimal(n: nat) -> Seq<char>
    decreases n,
{
    if n < 10 {
        seq![digit_char(n)]
    } else {
        decimal(n / 10).push(digit_char(n % 10))
    }
}

/// Appends the decimal numeral of `n` to `out`.
pub fn push_decimal(out: &mut String, n: u64)
    ensures
        final(out)@ == old(out)@ + decimal(n as nat),
    decreases n,
{
    if n >= 10 {
        push_decimal(out, n / 10);
    }
    let d = (n % 10) as usize;
    let digits = "0123456789";
    proof {
        reveal_strlit("0123456789");
    }
    let ghost before = out@;
    out.append(digits.substring_char(d, d + 1));
    assert(digits@.subrange(d as int, d + 1) =~= seq![digit_char(d as nat)]);
    assert(out@ =~= old(out)@ + decimal(n as nat));
}

/// The decimal numeral of `n`.
pub fn decimal_string(n: u64) -> (s: String)
    ensures
        s@ == decimal(n as nat),
{
    let mut s = String::new();
    push_decimal(&mut s, n);
    assert(s@ =~= decimal(n as nat));
    s
}

/// `s` with every trailing copy of the non-empty `p` removed, as
/// `str::trim_end_matches` does.
pub open spec fn strip_trailing(s: Seq<char>, p: Seq<char>) -> Seq<char>
    decreases s.len(),
{
    if p.len() > 0 && s.len() >= p.len() && has_suffix(s, p) {
        strip_trailing(s.subrange(0, s.len() - p.len()), p)
    } else {
        s
    }
}

/// `s` with every trailing copy of the non-empty `p` removed.
pub fn trim_end_matches(s: &str, p: &str) -> (r: String)
    requires
        p@.len() > 0,
    ensures
        r@ == strip_trailing(s@, p@),
{
    let cs = chars_of(s);
    let ps = chars_of(p);
    let mut end: usize = cs.len();
    assert(cs@.subrange(0, end as int) =~= cs@);
    while end >= ps.len() && matches_at(&cs, end - ps.len(), &ps)
        invariant
            cs@ == s@,
            ps@ == p@,
            p@.len() > 0,
            end <= cs@.len(),
            strip_trailing(s@, p@) == strip_trailing(cs@.subrange(0, end as int), p@),
        decreases end,
    {
        let ghost t = cs@.subrange(0, end as int);
        assert(t.subrange(t.len() - ps@.len(), t.len() as int) =~= cs@.subrange(
            end - ps@.len(),
            end as int,
        ));
        assert(t.subrange(0, t.len() - ps@.len()) =~= cs@.subrange(0, end - ps@.len()));
        end = end - ps.len();
    }
    proof {
        let t = cs@.subrange(0, end as int);
        if end >= ps@.len() {
            assert(t.subrange(t.len() - ps@.len(), t.len() as int) =~= cs@.subrange(
                end - ps@.len(),
                end as int,
            ));
        }
    }
    string_of_range(s, 0, end)
}

/// The whitespace-separated words of `s`, as strings.
pub fn split_whitespace(s: &str) -> (r: Vec<String>)
    ensures
        string_views(r@) == words(s@),
{
    let cs = chars_of(s);
    let mut out: Vec<String> = Vec::new();
    let mut start: usize = 0;
    let mut i: usize = 0;
    assert(cs@.take(0) =~= Seq::<char>::empty());
    assert(string_views(out@) =~= Seq::<Seq<char>>::empty());
    while i < cs.len()
        invariant
            cs@ == s@,
            start <= i <= cs@.len(),
            words(cs@.take(i as int)) == string_views(out@) + (if start < i {
                seq![cs@.subrange(start as int, i as int)]
            } else {
                Seq::<Seq<char>>::empty()
            }),
            start < i <==> (i > 0 && !is_ws(cs@[i - 1])),
        decreases cs@.len() - i,
    {
        let c = cs[i];
        let ghost before = string_views(out@);
        let ghost cur = cs@.subrange(start as int, i as int);
        assert(cs@.take(i + 1).drop_last() =~= cs@.take(i as int));
        assert(cs@.take(i + 1).last() == c);
        if i > 0 {
            assert(cs@.take(i + 1)[i - 1] == cs@[i - 1]);
        }
        if is_whitespace(c) {
            if start < i {
                out.push(string_of_range(s, start, i));
                assert(string_views(out@) =~= before + seq![cur]);
            }
            start = i + 1;
            assert(string_views(out@) + Seq::<Seq<char>>::empty() =~= string_views(out@));
        } else {
            if start < i {
                let ghost w = before + seq![cur];
                assert(w.drop_last() =~= before);
                assert(cur.push(c) =~= cs@.subrange(start as int, i + 1));
                assert(before.push(cur.push(c)) =~= before + seq![cs@.subrange(start as int, i + 1)]);
            } else {
                start = i;
                assert(cs@.subrange(start as int, i + 1) =~= seq![c]);
                assert((before + Seq::<Seq<char>>::empty()).push(seq![c]) =~= before + seq![
                    cs@.subrange(start as int, i + 1),
                ]);
            }
        }
        i = i + 1;
    }
    let ghost before = string_views(out@);
    if start < i {
        out.push(string_of_range(s, start, i));
        assert(string_views(out@) =~= before + seq![cs@.subrange(start as int, i as int)]);
    } else {
        assert(before + Seq::<Seq<char>>::empty() =~= before);
    }
    assert(cs@.take(cs@.len() as int) =~= cs@);
    out
}

/// Whether `w` is one of the strings `ws`.
pub fn contains_string(ws: &Vec<String>, w: &str) -> (b: bool)
    ensures
        b == string_views(ws@).contains(w@),
{
    let mut i: usize = 0;
    while i < ws.len()
        invariant
            i <= ws@.len(),
            forall|k: int| 0 <= k < i ==> ws@[k]@ != w@,
        decreases ws@.len() - i,
    {
        if str_eq(ws[i].as_str(), w) {
            assert(string_views(ws@)[i as int] == w@);
            return true;
        }
        i = i + 1;
    }
    assert(!string_views(ws@).contains(w@)) by {
        if string_views(ws@).contains(w@) {
            let k = choose|k: int| 0 <= k < string_views(ws@).len() && string_views(ws@)[k] == w@;
            assert(ws@[k]@ == w@);
        }
    }
    false
}

} // verus!
