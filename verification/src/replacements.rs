//! Pronunciation dictionaries: `key = value` lines, and the replacement of
//! every key by its value in a text to read.

use vstd::prelude::*;
use crate::chars::{
    chars_of, occurs_at, occurs_at_exec, push_char, push_str, split_chars, split_on,
    string_from_chars, trim, trim_chars,
};
use crate::textmap::TextMap;

verus! {

// ---------------------------------------------------------------------------
// Replacing every occurrence of a text
// ---------------------------------------------------------------------------

/// `s` with every occurrence of `from` replaced by `to`, as `str::replace`
/// does: occurrences are taken from the left and do not overlap; an empty
/// `from` occurs before every character and at the end.
pub open spec fn replace_all(s: Seq<char>, from: Seq<char>, to: Seq<char>) -> Seq<char>
    decreases s.len(),
{
    if from.len() == 0 {
        if s.len() == 0 {
            to
        } else {
            to + seq![s[0]] + replace_all(s.subrange(1, s.len() as int), from, to)
        }
    } else if s.len() < from.len() {
        s
    } else if s.subrange(0, from.len() as int) == from {
        to + replace_all(s.subrange(from.len() as int, s.len() as int), from, to)
    } else {
        seq![s[0]] + replace_all(s.subrange(1, s.len() as int), from, to)
    }
}

/// A text shorter than a non-empty pattern is left as it is.
proof fn lemma_replace_short(s: Seq<char>, from: Seq<char>, to: Seq<char>)
    requires
        from.len() > 0,
        s.len() < from.len(),
    ensures
        replace_all(s, from, to) == s,
{
}

/// Replaces every occurrence of `from` in `s` by `to`.
pub fn replace_text(s: &str, from: &str, to: &str) -> (r: String)
    ensures
        r@ == replace_all(s@, from@, to@),
{
    let v = chars_of(s);
    let f = chars_of(from);
    let n = v.len();
    let mut out = String::new();
    let mut i: usize = 0;
    assert(v@.subrange(0, n as int) =~= v@);
    assert(out@ + replace_all(v@, from@, to@) =~= replace_all(s@, from@, to@));
    if f.len() == 0 {
        while i < n
            invariant
                n == v@.len(),
                f@ == from@,
                from@.len() == 0,
                i <= n,
                out@ + replace_all(v@.subrange(i as int, n as int), from@, to@) == replace_all(
                    s@,
                    from@,
                    to@,
                ),
                v@ == s@,
            decreases n - i,
        {
            let ghost rest = v@.subrange(i as int, n as int);
            assert(rest.subrange(1, rest.len() as int) =~= v@.subrange(i + 1, n as int));
            assert(rest[0] == v@[i as int]);
            let ghost before = out@;
            push_str(&mut out, to);
            push_char(&mut out, v[i]);
            assert(out@ =~= before + to@ + seq![v@[i as int]]);
            assert(before + (to@ + seq![rest[0]] + replace_all(
                rest.subrange(1, rest.len() as int),
                from@,
                to@,
            )) =~= out@ + replace_all(v@.subrange(i + 1, n as int), from@, to@));
            i = i + 1;
        }
        assert(v@.subrange(n as int, n as int) =~= Seq::<char>::empty());
        push_str(&mut out, to);
    } else {
        let m = f.len();
        while i < n
            invariant
                n == v@.len(),
                f@ == from@,
                m == f@.len(),
                m > 0,
                i <= n,
                out@ + replace_all(v@.subrange(i as int, n as int), from@, to@) == replace_all(
                    s@,
                    from@,
                    to@,
                ),
                v@ == s@,
            decreases n - i,
        {
            let ghost rest = v@.subrange(i as int, n as int);
            let ghost before = out@;
            if m <= n - i && occurs_at_exec(&v, &f, i) {
                assert(rest.subrange(0, m as int) =~= v@.subrange(i as int, i + m));
                assert(rest.subrange(m as int, rest.len() as int) =~= v@.subrange(
                    i + m,
                    n as int,
                ));
                push_str(&mut out, to);
                assert(before + (to@ + replace_all(
                    rest.subrange(m as int, rest.len() as int),
                    from@,
                    to@,
                )) =~= out@ + replace_all(v@.subrange(i + m, n as int), from@, to@));
                i = i + m;
            } else {
                assert(rest.subrange(1, rest.len() as int) =~= v@.subrange(i + 1, n as int));
                assert(rest[0] == v@[i as int]);
                proof {
                    if rest.len() < m {
                        lemma_replace_short(rest, from@, to@);
                        lemma_replace_short(rest.subrange(1, rest.len() as int), from@, to@);
                        assert(rest =~= seq![rest[0]] + rest.subrange(1, rest.len() as int));
                    } else {
                        assert(!occurs_at(v@, f@, i as int));
                        assert(rest.subrange(0, m as int) =~= v@.subrange(i as int, i + m));
                    }
                }
                push_char(&mut out, v[i]);
                assert(before + (seq![rest[0]] + replace_all(
                    rest.subrange(1, rest.len() as int),
                    from@,
                    to@,
                )) =~= out@ + replace_all(v@.subrange(i + 1, n as int), from@, to@));
                i = i + 1;
            }
        }
        assert(v@.subrange(n as int, n as int) =~= Seq::<char>::empty());
    }
    assert(out@ =~= replace_all(s@, from@, to@));
    out
}

/// Replacing a text by itself changes nothing.
pub proof fn law_replace_by_itself(s: Seq<char>, w: Seq<char>)
    ensures
        replace_all(s, w, w) == s,
    decreases s.len(),
{
    if w.len() == 0 {
        if s.len() == 0 {
        } else {
            law_replace_by_itself(s.subrange(1, s.len() as int), w);
            assert(s =~= seq![s[0]] + s.subrange(1, s.len() as int));
        }
    } else if s.len() < w.len() {
    } else if s.subrange(0, w.len() as int) == w {
        law_replace_by_itself(s.subrange(w.len() as int, s.len() as int), w);
        assert(s =~= s.subrange(0, w.len() as int) + s.subrange(w.len() as int, s.len() as int));
    } else {
        law_replace_by_itself(s.subrange(1, s.len() as int), w);
        assert(s =~= seq![s[0]] + s.subrange(1, s.len() as int));
    }
}

/// A text in which the key never occurs is left as it is.
pub proof fn law_replace_absent(s: Seq<char>, from: Seq<char>, to: Seq<char>)
    requires
        from.len() > 0,
        forall|i: int| !occurs_at(s, from, i),
    ensures
        replace_all(s, from, to) == s,
    decreases s.len(),
{
    if s.len() < from.len() {
    } else {
        assert(!occurs_at(s, from, 0));
        let t = s.subrange(1, s.len() as int);
        assert forall|i: int| !occurs_at(t, from, i) by {
            if occurs_at(t, from, i) {
                assert(s.subrange(i + 1, i + 1 + from.len()) =~= t.subrange(i, i + from.len()));
                assert(occurs_at(s, from, i + 1));
            }
        }
        law_replace_absent(t, from, to);
        assert(s =~= seq![s[0]] + t);
    }
}

// ---------------------------------------------------------------------------
// Dictionary lines
// ---------------------------------------------------------------------------

/// `k` is the place of the first `c` in `t`.
pub open spec fn is_first(t: Seq<char>, c: char, k: int) -> bool {
    0 <= k < t.len() && t[k] == c && forall|j: int| 0 <= j < k ==> t[j] != c
}

/// The entry a dictionary line gives: the line is trimmed; an empty line or
/// one starting with `#` gives none, as does one without `=`; otherwise the
/// trimmed texts before and after the first `=` are the key and the value.
pub open spec fn line_entry(line: Seq<char>) -> Option<(Seq<char>, Seq<char>)> {
    let t = trim(line);
    if t.len() == 0 || t[0] == '#' {
        None
    } else if exists|k: int| is_first(t, '=', k) {
        let k = choose|k: int| is_first(t, '=', k);
        Some((trim(t.subrange(0, k)), trim(t.subrange(k + 1, t.len() as int))))
    } else {
        None
    }
}

/// The entries of the lines, in order.
pub open spec fn line_entries(lines: Seq<Seq<char>>) -> Seq<(Seq<char>, Seq<char>)>
    decreases lines.len(),
{
    if lines.len() == 0 {
        seq![]
    } else {
        let rest = line_entries(lines.drop_last());
        match line_entry(lines.last()) {
            Some(e) => rest.push(e),
            None => rest,
        }
    }
}

/// The entries of a dictionary file, line by line (a line ends at `\n`; a
/// `\r` before it is white space and trimmed away).
pub open spec fn content_entries(content: Seq<char>) -> Seq<(Seq<char>, Seq<char>)> {
    line_entries(split_on(content, '\n'))
}

/// The text of `v` from `lo` up to `hi`, trimmed.
fn trimmed_range(v: &Vec<char>, lo: usize, hi: usize) -> (s: String)
    requires
        lo <= hi <= v.len(),
    ensures
        s@ == trim(v@.subrange(lo as int, hi as int)),
{
    let mut part: Vec<char> = Vec::new();
    for i in lo..hi
        invariant
            lo <= hi <= v.len(),
            part@ == v@.subrange(lo as int, i as int),
    {
        part.push(v[i]);
        assert(v@.subrange(lo as int, i + 1) =~= v@.subrange(lo as int, i as int).push(
            v@[i as int],
        ));
    }
    let t = trim_chars(&part);
    string_from_chars(&t)
}

/// The (key, value) entry of one dictionary line, if it holds one.
pub fn parse_dictionary_line(line: &Vec<char>) -> (r: Option<(String, String)>)
    ensures
        match line_entry(line@) {
            None => r is None,
            Some((k, v)) => r matches Some(e) && e.0@ == k && e.1@ == v,
        },
{
    let t = trim_chars(line);
    if t.len() == 0 || t[0] == '#' {
        return None;
    }
    let n = t.len();
    for k in 0..n
        invariant
            n == t@.len(),
            t@ == trim(line@),
            t@.len() > 0 && t@[0] != '#',
            forall|j: int| 0 <= j < k ==> t@[j] != '=',
    {
        if t[k] == '=' {
            assert(is_first(t@, '=', k as int));
            assert forall|k2: int| is_first(t@, '=', k2) implies k2 == k by {
                if k2 < k {
                    assert(t@[k2] != '=');
                } else if k2 > k {
                    assert(t@[k as int] != '=');
                }
            }
            let key = trimmed_range(&t, 0, k);
            let value = trimmed_range(&t, k + 1, n);
            return Some((key, value));
        }
    }
    assert forall|k2: int| !is_first(t@, '=', k2) by {}
    None
}

/// The text values of a dictionary.
pub open spec fn text_values(m: Map<Seq<char>, String>) -> Map<Seq<char>, Seq<char>> {
    m.map_values(|v: String| v@)
}

/// Each entry set in turn, a later value of a key replacing an earlier one.
pub open spec fn insert_entries(
    m: Map<Seq<char>, Seq<char>>,
    es: Seq<(Seq<char>, Seq<char>)>,
) -> Map<Seq<char>, Seq<char>>
    decreases es.len(),
{
    if es.len() == 0 {
        m
    } else {
        insert_entries(m, es.drop_last()).insert(es.last().0, es.last().1)
    }
}

/// Reads the entries of a dictionary file into `dict`, each line in turn: a
/// key met again takes its latest value.
pub fn load_dictionary_text(dict: &mut TextMap<String>, content: &str)
    ensures
        text_values(final(dict)@) == insert_entries(text_values(old(dict)@), content_entries(
            content@,
        )),
{
    let v = chars_of(content);
    let lines = split_chars(&v, '\n');
    let ghost ls = split_on(content@, '\n');
    let n = lines.len();
    for i in 0..n
        invariant
            n == lines@.len(),
            ls == split_on(content@, '\n'),
            ls.len() == n,
            forall|j: int| 0 <= j < n ==> (#[trigger] lines@[j])@ == ls[j],
            text_values(dict@) == insert_entries(
                text_values(old(dict)@),
                line_entries(ls.take(i as int)),
            ),
    {
        assert(ls.take(i + 1).drop_last() =~= ls.take(i as int));
        assert(ls.take(i + 1).last() == lines@[i as int]@);
        match parse_dictionary_line(&lines[i]) {
            Some((key, value)) => {
                let ghost before = dict@;
                let ghost kv = key@;
                let ghost vv = value@;
                dict.insert(key, value);
                assert(text_values(dict@) =~= text_values(before).insert(kv, vv));
                let ghost prev = line_entries(ls.take(i as int));
                assert(line_entries(ls.take(i + 1)) == prev.push((kv, vv)));
                assert(prev.push((kv, vv)).drop_last() =~= prev);
            },
            None => {
                assert(line_entries(ls.take(i + 1)) == line_entries(ls.take(i as int)));
            },
        }
    }
    assert(ls.take(n as int) =~= ls);
}

// ---------------------------------------------------------------------------
// Applying a dictionary
// ---------------------------------------------------------------------------

/// The text after replacing each entry's key by its value, the entries
/// taken in order.
pub open spec fn apply_entries(s: Seq<char>, es: Seq<(Seq<char>, Seq<char>)>) -> Seq<char>
    decreases es.len(),
{
    if es.len() == 0 {
        s
    } else {
        replace_all(apply_entries(s, es.drop_last()), es.last().0, es.last().1)
    }
}

/// The (key, value) texts of dictionary entries.
pub open spec fn entry_views(es: Seq<(String, String)>) -> Seq<(Seq<char>, Seq<char>)> {
    es.map_values(|e: (String, String)| (e.0@, e.1@))
}

/// `text` with every key of the dictionary replaced by its value, the keys
/// taken in the order the dictionary keeps them. An empty dictionary leaves
/// the text as it is.
pub fn apply_replacements(text: &str, dict: &TextMap<String>) -> (r: String)
    ensures
        r@ == apply_entries(text@, entry_views(dict.entry_seq())),
{
    let es = dict.entries();
    let n = es.len();
    let mut result = string_from_chars(&chars_of(text));
    for i in 0..n
        invariant
            n == es@.len(),
            es@ == dict.entry_seq(),
            result@ == apply_entries(text@, entry_views(es@).take(i as int)),
    {
        assert(entry_views(es@).take(i + 1).drop_last() =~= entry_views(es@).take(i as int));
        let (from, to) = &es[i];
        result = replace_text(result.as_str(), from.as_str(), to.as_str());
    }
    assert(entry_views(es@).take(n as int) =~= entry_views(es@));
    result
}

/// A dictionary with no entry leaves every text as it is.
pub proof fn law_empty_dictionary_changes_nothing(text: Seq<char>, dict: TextMap<String>)
    requires
        dict@ == Map::<Seq<char>, String>::empty(),
    ensures
        apply_entries(text, entry_views(dict.entry_seq())) == text,
{
    dict.lemma_view_is_entries();
    assert(entry_views(dict.entry_seq()).len() == 0);
}

} // verus!
