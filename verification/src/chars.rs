//! Character-level building blocks shared by the text modules: Unicode
//! white space, case properties, and string construction.

use vstd::prelude::*;

verus! {

/// The Unicode `White_Space` property, the set that `char::is_whitespace`
/// and `str::split_whitespace` use.
pub open spec fn is_ws(c: char) -> bool {
    ||| ('\u{9}' <= c && c <= '\u{d}')
    ||| c == ' '
    ||| c == '\u{85}'
    ||| c == '\u{a0}'
    ||| c == '\u{1680}'
    ||| ('\u{2000}' <= c && c <= '\u{200a}')
    ||| c == '\u{2028}'
    ||| c == '\u{2029}'
    ||| c == '\u{202f}'
    ||| c == '\u{205f}'
    ||| c == '\u{3000}'
}

/// Whether `c` is Unicode white space.
pub fn is_whitespace(c: char) -> (b: bool)
    ensures
        b == is_ws(c),
{
    ('\u{9}' <= c && c <= '\u{d}') || c == ' ' || c == '\u{85}' || c == '\u{a0}' || c
        == '\u{1680}' || ('\u{2000}' <= c && c <= '\u{200a}') || c == '\u{2028}' || c
        == '\u{2029}' || c == '\u{202f}' || c == '\u{205f}' || c == '\u{3000}'
}

/// What `char::is_uppercase` says of a character outside ASCII.
pub uninterp spec fn non_ascii_uppercase(c: char) -> bool;

/// What `char::is_lowercase` says of a character outside ASCII.
pub uninterp spec fn non_ascii_lowercase(c: char) -> bool;

/// Whether `c` is an ASCII character.
pub open spec fn is_ascii_char(c: char) -> bool {
    c <= '\u{7f}'
}

/// Whether `c` is one of the ASCII letters `A` to `Z`.
pub open spec fn is_ascii_upper(c: char) -> bool {
    'A' <= c && c <= 'Z'
}

/// Whether `c` is one of the ASCII letters `a` to `z`.
pub open spec fn is_ascii_lower(c: char) -> bool {
    'a' <= c && c <= 'z'
}

/// The Unicode `Uppercase` property of a character: in ASCII, the letters
/// `A` to `Z`.
pub open spec fn unicode_uppercase(c: char) -> bool {
    if is_ascii_char(c) {
        is_ascii_upper(c)
    } else {
        non_ascii_uppercase(c)
    }
}

/// The Unicode `Lowercase` property of a character: in ASCII, the letters
/// `a` to `z`.
pub open spec fn unicode_lowercase(c: char) -> bool {
    if is_ascii_char(c) {
        is_ascii_lower(c)
    } else {
        non_ascii_lowercase(c)
    }
}

/// Calls `char::is_uppercase`, which reports the Unicode `Uppercase` property;
/// the property table itself is not restated here beyond ASCII, where only
/// `A` to `Z` have it.
#[verifier::external_body]
pub(crate) fn is_uppercase(c: char) -> (b: bool)
    ensures
        is_ascii_char(c) ==> (b == is_ascii_upper(c)),
        !is_ascii_char(c) ==> (b == non_ascii_uppercase(c)),
{
    c.is_uppercase()
}

/// Calls `char::is_lowercase`, which reports the Unicode `Lowercase` property;
/// the property table itself is not restated here beyond ASCII, where only
/// `a` to `z` have it.
#[verifier::external_body]
pub(crate) fn is_lowercase(c: char) -> (b: bool)
    ensures
        is_ascii_char(c) ==> (b == is_ascii_lower(c)),
        !is_ascii_char(c) ==> (b == non_ascii_lowercase(c)),
{
    c.is_lowercase()
}

/// Calls `str::chars` and collects: the characters of `s`, in order.
#[verifier::external_body]
pub(crate) fn chars_of(s: &str) -> (v: Vec<char>)
    ensures
        v@ == s@,
{
    s.chars().collect()
}

/// Calls `String::push`: appends one character.
#[verifier::external_body]
pub(crate) fn push_char(s: &mut String, c: char)
    ensures
        final(s)@ == old(s)@.push(c),
{
    s.push(c)
}

/// A string holding exactly the characters of `v`.
pub fn string_from_chars(v: &Vec<char>) -> (s: String)
    ensures
        s@ == v@,
{
    let mut s = String::new();
    let n = v.len();
    for i in 0..n
        invariant
            n == v.len(),
            s@ == v@.take(i as int),
    {
        push_char(&mut s, v[i]);
        assert(v@.take(i + 1) =~= v@.take(i as int).push(v@[i as int]));
    }
    assert(v@.take(n as int) =~= v@);
    s
}

/// Appends the characters of `t` to `s`.
pub(crate) fn push_str(s: &mut String, t: &str)
    ensures
        final(s)@ == old(s)@ + t@,
{
    s.append(t);
}

/// The text `a` followed by `b`.
pub fn concat2(a: &str, b: &str) -> (m: String)
    ensures
        m@ == a@ + b@,
{
    let mut m = String::new();
    push_str(&mut m, a);
    push_str(&mut m, b);
    assert(m@ =~= a@ + b@);
    m
}

/// The text `a` followed by `b` and `c`.
pub fn concat3(a: &str, b: &str, c: &str) -> (m: String)
    ensures
        m@ == a@ + b@ + c@,
{
    let mut m = String::new();
    push_str(&mut m, a);
    push_str(&mut m, b);
    push_str(&mut m, c);
    assert(m@ =~= a@ + b@ + c@);
    m
}

/// The texts `a`, `b`, `c`, `d` and `e`, one after the other.
pub fn concat5(a: &str, b: &str, c: &str, d: &str, e: &str) -> (m: String)
    ensures
        m@ == a@ + b@ + c@ + d@ + e@,
{
    let mut m = String::new();
    push_str(&mut m, a);
    push_str(&mut m, b);
    push_str(&mut m, c);
    push_str(&mut m, d);
    push_str(&mut m, e);
    assert(m@ =~= a@ + b@ + c@ + d@ + e@);
    m
}

/// What `str::to_lowercase` gives for a text that is not all ASCII.
pub uninterp spec fn non_ascii_to_lowercase(s: Seq<char>) -> Seq<char>;

/// Whether every character of `s` is ASCII.
pub open spec fn all_ascii(s: Seq<char>) -> bool {
    forall|i: int| 0 <= i < s.len() ==> is_ascii_char(#[trigger] s[i])
}

/// `c` with `A` to `Z` turned into `a` to `z`.
pub open spec fn ascii_lower_char(c: char) -> char {
    if is_ascii_upper(c) {
        ((c as int) + 32) as char
    } else {
        c
    }
}

/// The Unicode lower-case mapping of a text: for ASCII text, `A` to `Z`
/// turned into `a` to `z`.
pub open spec fn unicode_to_lowercase(s: Seq<char>) -> Seq<char> {
    if all_ascii(s) {
        s.map_values(|c: char| ascii_lower_char(c))
    } else {
        non_ascii_to_lowercase(s)
    }
}

/// Calls `str::to_lowercase`, whose result depends on its argument alone;
/// the Unicode case tables are not restated here beyond ASCII text, which
/// it lowers letter by letter.
#[verifier::external_body]
pub(crate) fn to_lowercase(s: &str) -> (r: String)
    ensures
        all_ascii(s@) ==> r@ == s@.map_values(|c: char| ascii_lower_char(c)),
        !all_ascii(s@) ==> r@ == non_ascii_to_lowercase(s@),
{
    s.to_lowercase()
}

/// Whether two character vectors hold the same characters.
pub fn same_chars(a: &Vec<char>, b: &Vec<char>) -> (r: bool)
    ensures
        r == (a@ == b@),
{
    if a.len() != b.len() {
        return false;
    }
    let n = a.len();
    for i in 0..n
        invariant
            n == a.len(),
            n == b.len(),
            forall|j: int| 0 <= j < i ==> a@[j] == b@[j],
    {
        if a[i] != b[i] {
            return false;
        }
    }
    assert(a@ =~= b@);
    true
}

/// Whether the characters of `a` are those of the text `b`.
pub fn chars_eq_str(a: &Vec<char>, b: &str) -> (r: bool)
    ensures
        r == (a@ == b@),
{
    let bv = chars_of(b);
    same_chars(a, &bv)
}

/// Whether two texts hold the same characters.
pub fn text_eq(a: &str, b: &str) -> (r: bool)
    ensures
        r == (a@ == b@),
{
    let av = chars_of(a);
    chars_eq_str(&av, b)
}

/// `s` without its trailing white space.
pub open spec fn trim_end(s: Seq<char>) -> Seq<char>
    decreases s.len(),
{
    if s.len() > 0 && is_ws(s.last()) {
        trim_end(s.drop_last())
    } else {
        s
    }
}

/// `s` without its leading white space.
pub open spec fn trim_start(s: Seq<char>) -> Seq<char>
    decreases s.len(),
{
    if s.len() > 0 && is_ws(s[0]) {
        trim_start(s.drop_first())
    } else {
        s
    }
}

/// `s` without leading and trailing white space (what `str::trim` gives).
pub open spec fn trim(s: Seq<char>) -> Seq<char> {
    trim_start(trim_end(s))
}

/// A text with no white space at either end is its own trim.
pub proof fn lemma_trim_unchanged(s: Seq<char>)
    requires
        s.len() > 0 ==> !is_ws(s[0]) && !is_ws(s.last()),
    ensures
        trim(s) == s,
{
}

/// Removes the white space at both ends of `v`.
pub fn trim_chars(v: &Vec<char>) -> (r: Vec<char>)
    ensures
        r@ == trim(v@),
{
    let mut e = v.len();
    assert(v@.take(e as int) =~= v@);
    while e > 0 && is_whitespace(v[e - 1])
        invariant
            e <= v.len(),
            trim_end(v@) == trim_end(v@.take(e as int)),
        decreases e,
    {
        assert(v@.take(e as int).drop_last() =~= v@.take(e - 1));
        e = e - 1;
    }
    let ghost te = v@.take(e as int);
    assert(trim_end(te) == te);
    let mut b: usize = 0;
    assert(te.subrange(0, e as int) =~= te);
    while b < e && is_whitespace(v[b])
        invariant
            b <= e <= v.len(),
            te == v@.take(e as int),
            trim_start(te) == trim_start(te.subrange(b as int, e as int)),
        decreases e - b,
    {
        assert(te.subrange(b as int, e as int).drop_first() =~= te.subrange(b + 1, e as int));
        b = b + 1;
    }
    let mut r: Vec<char> = Vec::new();
    let mut i = b;
    while i < e
        invariant
            b <= i <= e <= v.len(),
            r@ == v@.subrange(b as int, i as int),
        decreases e - i,
    {
        r.push(v[i]);
        assert(v@.subrange(b as int, i + 1) =~= v@.subrange(b as int, i as int).push(v@[i as int]));
        i = i + 1;
    }
    assert(te.subrange(b as int, e as int) =~= v@.subrange(b as int, e as int));
    r
}

/// The pieces of `s` between occurrences of `sep` (what `str::split` with a
/// character gives): one more piece than there are separators.
pub open spec fn split_on(s: Seq<char>, sep: char) -> Seq<Seq<char>>
    decreases s.len(),
{
    if s.len() == 0 {
        seq![seq![]]
    } else {
        let p = split_on(s.drop_last(), sep);
        if s.last() == sep {
            p.push(seq![])
        } else {
            p.update(p.len() - 1, p.last().push(s.last()))
        }
    }
}

/// The pieces joined with `sep` between consecutive ones.
pub open spec fn join_sep(ps: Seq<Seq<char>>, sep: char) -> Seq<char>
    decreases ps.len(),
{
    if ps.len() == 0 {
        seq![]
    } else if ps.len() == 1 {
        ps[0]
    } else {
        join_sep(ps.drop_last(), sep) + seq![sep] + ps.last()
    }
}

/// `sep` does not occur in `w`.
pub open spec fn lacks(w: Seq<char>, sep: char) -> bool {
    forall|j: int| 0 <= j < w.len() ==> #[trigger] w[j] != sep
}

/// The view of each vector of characters.
pub open spec fn views_of(ws: Seq<Vec<char>>) -> Seq<Seq<char>> {
    ws.map_values(|w: Vec<char>| w@)
}

proof fn lemma_split_nonempty(s: Seq<char>, sep: char)
    ensures
        split_on(s, sep).len() >= 1,
    decreases s.len(),
{
    if s.len() > 0 {
        lemma_split_nonempty(s.drop_last(), sep);
    }
}

/// Splits `v` at every `sep`.
pub fn split_chars(v: &Vec<char>, sep: char) -> (parts: Vec<Vec<char>>)
    ensures
        views_of(parts@) == split_on(v@, sep),
        parts@.len() >= 1,
{
    let mut parts: Vec<Vec<char>> = Vec::new();
    let mut current: Vec<char> = Vec::new();
    let n = v.len();
    for i in 0..n
        invariant
            n == v.len(),
            split_on(v@.take(i as int), sep) == views_of(parts@).push(current@),
    {
        let c = v[i];
        let ghost t = v@.take(i + 1);
        assert(t.drop_last() =~= v@.take(i as int));
        proof {
            lemma_split_nonempty(v@.take(i as int), sep);
        }
        if c == sep {
            let w = current;
            current = Vec::new();
            parts.push(w);
            assert(views_of(parts@).push(current@) =~= views_of(parts@).drop_last().push(w@).push(
                seq![],
            ));
        } else {
            current.push(c);
        }
        assert(views_of(parts@).push(current@) =~= split_on(t, sep));
    }
    assert(v@.take(n as int) =~= v@);
    parts.push(current);
    assert(views_of(parts@) =~= split_on(v@, sep));
    parts
}

proof fn lemma_split_after_sep(a: Seq<char>, w: Seq<char>, sep: char)
    requires
        lacks(w, sep),
    ensures
        split_on(a + seq![sep] + w, sep) == split_on(a, sep).push(w),
    decreases w.len(),
{
    let x = a + seq![sep] + w;
    if w.len() == 0 {
        assert(x =~= a.push(sep));
        assert(x.drop_last() =~= a);
        assert(w =~= Seq::<char>::empty());
    } else {
        let wp = w.drop_last();
        assert(lacks(wp, sep)) by {
            assert forall|j: int| 0 <= j < wp.len() implies #[trigger] wp[j] != sep by {
                assert(wp[j] == w[j]);
            }
        }
        lemma_split_after_sep(a, wp, sep);
        assert(x.drop_last() =~= a + seq![sep] + wp);
        assert(x.last() == w[w.len() - 1]);
        assert(w[w.len() - 1] != sep);
        assert(wp.push(w.last()) =~= w);
        let p = split_on(a, sep).push(wp);
        assert(p.update(p.len() - 1, p.last().push(x.last())) =~= split_on(a, sep).push(w));
    }
}

proof fn lemma_split_single(w: Seq<char>, sep: char)
    requires
        lacks(w, sep),
    ensures
        split_on(w, sep) == seq![w],
    decreases w.len(),
{
    if w.len() > 0 {
        let wp = w.drop_last();
        assert(lacks(wp, sep)) by {
            assert forall|j: int| 0 <= j < wp.len() implies #[trigger] wp[j] != sep by {
                assert(wp[j] == w[j]);
            }
        }
        lemma_split_single(wp, sep);
        assert(w[w.len() - 1] != sep);
        assert(wp.push(w.last()) =~= w);
        assert(seq![wp].update(0, wp.push(w.last())) =~= seq![w]);
    } else {
        assert(w =~= Seq::<char>::empty());
    }
}

/// Splitting the join of pieces without `sep` gives the pieces back.
pub proof fn lemma_split_join(ps: Seq<Seq<char>>, sep: char)
    requires
        ps.len() >= 1,
        forall|i: int| 0 <= i < ps.len() ==> lacks(#[trigger] ps[i], sep),
    ensures
        split_on(join_sep(ps, sep), sep) == ps,
    decreases ps.len(),
{
    if ps.len() == 1 {
        lemma_split_single(ps[0], sep);
        assert(seq![ps[0]] =~= ps);
    } else {
        let pre = ps.drop_last();
        assert forall|i: int| 0 <= i < pre.len() implies lacks(#[trigger] pre[i], sep) by {
            assert(pre[i] == ps[i]);
        }
        lemma_split_join(pre, sep);
        assert(ps.last() == ps[ps.len() - 1]);
        lemma_split_after_sep(join_sep(pre, sep), ps.last(), sep);
        assert(pre.push(ps.last()) =~= ps);
    }
}

/// Joins the pieces with `sep` between consecutive ones.
pub fn join_chars(ps: &Vec<Vec<char>>, sep: char) -> (s: String)
    ensures
        s@ == join_sep(views_of(ps@), sep),
{
    let mut s = String::new();
    let n = ps.len();
    for i in 0..n
        invariant
            n == ps.len(),
            s@ == join_sep(views_of(ps@).take(i as int), sep),
    {
        let ghost pre = views_of(ps@).take(i as int);
        assert(views_of(ps@).take(i + 1) =~= pre.push(ps@[i as int]@));
        assert(pre.push(ps@[i as int]@).drop_last() =~= pre);
        if i > 0 {
            push_char(&mut s, sep);
        }
        let w = &ps[i];
        let m = w.len();
        let ghost before = s@;
        for k in 0..m
            invariant
                m == w.len(),
                s@ == before + w@.take(k as int),
        {
            push_char(&mut s, w[k]);
            assert(w@.take(k + 1) =~= w@.take(k as int).push(w@[k as int]));
            assert(before + w@.take(k + 1) =~= (before + w@.take(k as int)).push(w@[k as int]));
        }
        assert(w@.take(m as int) =~= w@);
        assert(i == 0 ==> pre =~= Seq::<Seq<char>>::empty());
        assert(i == 0 ==> s@ =~= join_sep(pre.push(ps@[i as int]@), sep));
        assert(i > 0 ==> s@ =~= join_sep(pre, sep) + seq![sep] + ps@[i as int]@);
    }
    assert(views_of(ps@).take(n as int) =~= views_of(ps@));
    s
}

/// Each piece followed by `sep`, all concatenated.
pub open spec fn suffixed(ws: Seq<Seq<char>>, sep: char) -> Seq<char>
    decreases ws.len(),
{
    if ws.len() == 0 {
        seq![]
    } else {
        suffixed(ws.drop_last(), sep) + ws.last() + seq![sep]
    }
}

/// Joining pieces followed by a last one is writing each piece with its
/// separator, then the last one.
pub proof fn lemma_join_push_suffixed(ws: Seq<Seq<char>>, k: Seq<char>, sep: char)
    ensures
        join_sep(ws.push(k), sep) == suffixed(ws, sep) + k,
    decreases ws.len(),
{
    assert(ws.push(k).drop_last() =~= ws);
    if ws.len() == 0 {
        assert(seq![] + k =~= k);
    } else {
        let d = ws.drop_last();
        lemma_join_push_suffixed(d, ws.last(), sep);
        assert(d.push(ws.last()) =~= ws);
        assert(join_sep(ws.push(k), sep) =~= suffixed(ws, sep) + k);
    }
}

/// Writing pieces with their separators distributes over concatenation.
pub proof fn lemma_suffixed_append(x: Seq<Seq<char>>, y: Seq<Seq<char>>, sep: char)
    ensures
        suffixed(x + y, sep) == suffixed(x, sep) + suffixed(y, sep),
    decreases y.len(),
{
    if y.len() == 0 {
        assert(x + y =~= x);
    } else {
        lemma_suffixed_append(x, y.drop_last(), sep);
        assert((x + y).drop_last() =~= x + y.drop_last());
        assert((x + y).last() == y.last());
        assert(suffixed(x + y, sep) =~= suffixed(x, sep) + suffixed(y, sep));
    }
}

/// One piece with its separator.
pub proof fn lemma_suffixed_single(w: Seq<char>, sep: char)
    ensures
        suffixed(seq![w], sep) == w + seq![sep],
{
    let one = seq![w];
    assert(one.drop_last() =~= Seq::<Seq<char>>::empty());
    assert(one.last() == w);
    assert(suffixed(one.drop_last(), sep) == Seq::<char>::empty());
    assert(Seq::<char>::empty() + w + seq![sep] =~= w + seq![sep]);
}

/// `s` ends with `suf`.
pub open spec fn ends_with(s: Seq<char>, suf: Seq<char>) -> bool {
    suf.len() <= s.len() && s.subrange(s.len() - suf.len(), s.len() as int) == suf
}

/// `s` starts with `pre`.
pub open spec fn starts_with(s: Seq<char>, pre: Seq<char>) -> bool {
    pre.len() <= s.len() && s.subrange(0, pre.len() as int) == pre
}

/// `t` occurs in `s` at position `i`.
pub open spec fn occurs_at(s: Seq<char>, t: Seq<char>, i: int) -> bool {
    0 <= i && i + t.len() <= s.len() && s.subrange(i, i + t.len()) == t
}

/// `t` occurs somewhere in `s`.
pub open spec fn contains_text(s: Seq<char>, t: Seq<char>) -> bool {
    exists|i: int| occurs_at(s, t, i)
}

/// Whether `t` occurs in `s` at position `i`.
pub fn occurs_at_exec(s: &Vec<char>, t: &Vec<char>, i: usize) -> (r: bool)
    ensures
        r == occurs_at(s@, t@, i as int),
{
    if i > s.len() || t.len() > s.len() - i {
        return false;
    }
    let m = t.len();
    for k in 0..m
        invariant
            m == t.len(),
            i + m <= s.len(),
            forall|j: int| 0 <= j < k ==> s@[i + j] == t@[j],
    {
        if s[i + k] != t[k] {
            assert(s@.subrange(i as int, i + m)[k as int] != t@[k as int]);
            return false;
        }
    }
    assert(s@.subrange(i as int, i + m) =~= t@);
    true
}

/// Whether `s` ends with the text `suf`.
pub fn ends_with_str(s: &Vec<char>, suf: &str) -> (r: bool)
    ensures
        r == ends_with(s@, suf@),
{
    let t = chars_of(suf);
    if t.len() > s.len() {
        return false;
    }
    occurs_at_exec(s, &t, s.len() - t.len())
}

/// Whether `s` starts with the text `pre`.
pub fn starts_with_str(s: &Vec<char>, pre: &str) -> (r: bool)
    ensures
        r == starts_with(s@, pre@),
{
    let t = chars_of(pre);
    occurs_at_exec(s, &t, 0)
}

/// Whether the text `t` occurs in `s`.
pub fn contains_str(s: &Vec<char>, t: &str) -> (r: bool)
    ensures
        r == contains_text(s@, t@),
{
    let tv = chars_of(t);
    if tv.len() > s.len() {
        assert forall|i: int| !occurs_at(s@, t@, i) by {}
        return false;
    }
    let last = s.len() - tv.len();
    let mut i: usize = 0;
    while i <= last
        invariant
            last == s@.len() - tv@.len(),
            tv@ == t@,
            forall|j: int| 0 <= j < i ==> !occurs_at(s@, t@, j),
        decreases last + 1 - i,
    {
        if occurs_at_exec(s, &tv, i) {
            return true;
        }
        if i == last {
            assert forall|j: int| !occurs_at(s@, t@, j) by {
                if j > i {
                    assert(j + t@.len() > s@.len());
                }
            }
            return false;
        }
        i = i + 1;
    }
    false
}

/// `base` with the relative path `part` appended, as `Path::join` does: a
/// `/` is put between them unless `base` is empty or already ends with one.
pub open spec fn path_join(base: Seq<char>, part: Seq<char>) -> Seq<char> {
    if base.len() == 0 || base.last() == '/' {
        base + part
    } else {
        base + "/"@ + part
    }
}

/// `base` with the relative path `part` appended.
pub fn join_path(base: &str, part: &str) -> (r: String)
    ensures
        r@ == path_join(base@, part@),
{
    let b = chars_of(base);
    proof {
        reveal_strlit("/");
    }
    if b.len() == 0 || b[b.len() - 1] == '/' {
        let mut r = string_from_chars(&b);
        push_str(&mut r, part);
        r
    } else {
        concat3(base, "/", part)
    }
}

/// `a` comes before `b` or equals it in the order of their characters'
/// code points, compared one by one (a prefix comes first).
pub open spec fn text_le(a: Seq<char>, b: Seq<char>) -> bool
    decreases a.len(),
{
    if a.len() == 0 {
        true
    } else if b.len() == 0 {
        false
    } else if a[0] != b[0] {
        (a[0] as u32) < (b[0] as u32)
    } else {
        text_le(a.subrange(1, a.len() as int), b.subrange(1, b.len() as int))
    }
}

/// Whether `a` comes before `b` or equals it, character by character.
pub fn text_le_exec(a: &Vec<char>, b: &Vec<char>) -> (r: bool)
    ensures
        r == text_le(a@, b@),
{
    let mut i: usize = 0;
    assert(a@.subrange(0, a@.len() as int) =~= a@);
    assert(b@.subrange(0, b@.len() as int) =~= b@);
    while i < a.len() && i < b.len() && a[i] == b[i]
        invariant
            i <= a@.len(),
            i <= b@.len(),
            a@.subrange(0, i as int) == b@.subrange(0, i as int),
            text_le(a@, b@) == text_le(
                a@.subrange(i as int, a@.len() as int),
                b@.subrange(i as int, b@.len() as int),
            ),
        decreases a.len() - i,
    {
        let ghost ra = a@.subrange(i as int, a@.len() as int);
        let ghost rb = b@.subrange(i as int, b@.len() as int);
        assert(ra.subrange(1, ra.len() as int) =~= a@.subrange(i + 1, a@.len() as int));
        assert(rb.subrange(1, rb.len() as int) =~= b@.subrange(i + 1, b@.len() as int));
        assert(a@.subrange(0, i + 1) =~= a@.subrange(0, i as int).push(a@[i as int]));
        assert(b@.subrange(0, i + 1) =~= b@.subrange(0, i as int).push(b@[i as int]));
        i = i + 1;
    }
    let ghost ra = a@.subrange(i as int, a@.len() as int);
    let ghost rb = b@.subrange(i as int, b@.len() as int);
    if i == a.len() {
        assert(ra.len() == 0);
        true
    } else if i == b.len() {
        assert(rb.len() == 0);
        false
    } else {
        assert(ra[0] == a@[i as int] && rb[0] == b@[i as int]);
        (a[i] as u32) < (b[i] as u32)
    }
}

} // verus!
