//! Text cleaning and formatting before speech.

use std::collections::HashMap;
use vstd::prelude::*;
use crate::chars::{chars_of, is_uppercase, is_lowercase, is_whitespace, push_char, is_ws, unicode_uppercase, unicode_lowercase};

verus! {

// ---------------------------------------------------------------------------
// Words and white space
// ---------------------------------------------------------------------------

/// The maximal runs of non-white-space characters of `s`, in order: what
/// `str::split_whitespace` yields.
pub open spec fn words(s: Seq<char>) -> Seq<Seq<char>>
    decreases s.len(),
{
    if s.len() == 0 {
        seq![]
    } else {
        let prev = words(s.drop_last());
        let c = s.last();
        if is_ws(c) {
            prev
        } else if s.len() >= 2 && !is_ws(s[s.len() - 2]) {
            prev.update(prev.len() - 1, prev.last().push(c))
        } else {
            prev.push(seq![c])
        }
    }
}

/// The words joined with a single space between consecutive ones.
pub open spec fn join_words(ws: Seq<Seq<char>>) -> Seq<char>
    decreases ws.len(),
{
    if ws.len() == 0 {
        seq![]
    } else if ws.len() == 1 {
        ws[0]
    } else {
        join_words(ws.drop_last()) + seq![' '] + ws.last()
    }
}

/// `s` with its white space collapsed: its words separated by single spaces.
pub open spec fn trimmed(s: Seq<char>) -> Seq<char> {
    join_words(words(s))
}

/// `w` holds no white space.
pub open spec fn no_ws(w: Seq<char>) -> bool {
    forall|j: int| 0 <= j < w.len() ==> !is_ws(#[trigger] w[j])
}

/// Every word is non-empty and free of white space.
pub open spec fn good_words(ws: Seq<Seq<char>>) -> bool {
    forall|i: int| 0 <= i < ws.len() ==> (#[trigger] ws[i]).len() > 0 && no_ws(ws[i])
}

/// White space in `t` is only single spaces strictly between two
/// non-white-space characters.
pub open spec fn is_normalized(t: Seq<char>) -> bool {
    forall|i: int|
        0 <= i < t.len() && is_ws(#[trigger] t[i]) ==> t[i] == ' ' && 0 < i && i + 1 < t.len()
            && !is_ws(t[i - 1]) && !is_ws(t[i + 1])
}

/// The view of each vector of characters.
pub open spec fn char_views(ws: Seq<Vec<char>>) -> Seq<Seq<char>> {
    ws.map_values(|w: Vec<char>| w@)
}

proof fn lemma_words_good(s: Seq<char>)
    ensures
        good_words(words(s)),
        s.len() > 0 && !is_ws(s.last()) ==> words(s).len() > 0 && words(s).last().last()
            == s.last(),
    decreases s.len(),
{
    if s.len() > 0 {
        lemma_words_good(s.drop_last());
        let prev = words(s.drop_last());
        let c = s.last();
        if is_ws(c) {
        } else if s.len() >= 2 && !is_ws(s[s.len() - 2]) {
            assert(s.drop_last().last() == s[s.len() - 2]);
            let nw = prev.last().push(c);
            let ws = prev.update(prev.len() - 1, nw);
            assert forall|i: int| 0 <= i < ws.len() implies (#[trigger] ws[i]).len() > 0 && no_ws(
                ws[i],
            ) by {
                if i == prev.len() - 1 {
                    assert(prev[i] == prev.last());
                    assert forall|j: int| 0 <= j < nw.len() implies !is_ws(#[trigger] nw[j]) by {
                        if j < nw.len() - 1 {
                            assert(nw[j] == prev[i][j]);
                        }
                    }
                }
            }
        } else {
            let ws = prev.push(seq![c]);
            assert forall|i: int| 0 <= i < ws.len() implies (#[trigger] ws[i]).len() > 0 && no_ws(
                ws[i],
            ) by {
                if i < prev.len() {
                    assert(ws[i] == prev[i]);
                }
            }
        }
    }
}

proof fn lemma_join_push(ws: Seq<Seq<char>>, w: Seq<char>)
    ensures
        ws.len() == 0 ==> join_words(ws.push(w)) == w,
        ws.len() > 0 ==> join_words(ws.push(w)) == join_words(ws) + seq![' '] + w,
{
    assert(ws.push(w).drop_last() =~= ws);
}

/// Splits `v` into its words (maximal runs of non-white-space characters).
pub fn split_whitespace(v: &Vec<char>) -> (ws: Vec<Vec<char>>)
    ensures
        char_views(ws@) == words(v@),
{
    let mut ws: Vec<Vec<char>> = Vec::new();
    let mut current: Vec<char> = Vec::new();
    let mut in_word = false;
    let n = v.len();
    for i in 0..n
        invariant
            n == v.len(),
            in_word == (i > 0 && !is_ws(v@[i - 1])),
            in_word ==> words(v@.take(i as int)) == char_views(ws@).push(current@),
            !in_word ==> words(v@.take(i as int)) == char_views(ws@),
    {
        let c = v[i];
        let ghost t = v@.take(i + 1);
        let ghost prev = words(v@.take(i as int));
        assert(t.drop_last() =~= v@.take(i as int));
        assert(t.last() == c);
        if is_whitespace(c) {
            if in_word {
                let w = current;
                current = Vec::new();
                ws.push(w);
                assert(char_views(ws@) =~= prev);
            }
            in_word = false;
        } else {
            if in_word {
                assert(t[t.len() - 2] == v@[i - 1]);
                let ghost old_current = current@;
                current.push(c);
                assert(char_views(ws@).push(current@) =~= prev.update(
                    prev.len() - 1,
                    prev.last().push(c),
                ));
            } else {
                current = Vec::new();
                current.push(c);
                assert(current@ =~= seq![c]);
                if i > 0 {
                    assert(t[t.len() - 2] == v@[i - 1]);
                }
            }
            in_word = true;
        }
        assert(char_views(ws@).push(current@) =~= char_views(ws@.push(current)));
    }
    assert(v@.take(n as int) =~= v@);
    if in_word {
        ws.push(current);
    }
    ws
}

/// Appends the characters of `w` to `s`.
fn push_all(s: &mut String, w: &Vec<char>)
    ensures
        final(s)@ == old(s)@ + w@,
{
    let n = w.len();
    for k in 0..n
        invariant
            n == w.len(),
            s@ == old(s)@ + w@.take(k as int),
    {
        push_char(s, w[k]);
        assert(w@.take(k + 1) =~= w@.take(k as int).push(w@[k as int]));
        assert(old(s)@ + w@.take(k + 1) =~= (old(s)@ + w@.take(k as int)).push(w@[k as int]));
    }
    assert(w@.take(n as int) =~= w@);
}

/// The words, joined with one space between consecutive ones.
pub fn join_with_spaces(ws: &Vec<Vec<char>>) -> (s: String)
    ensures
        s@ == join_words(char_views(ws@)),
{
    let mut s = String::new();
    let n = ws.len();
    for i in 0..n
        invariant
            n == ws.len(),
            s@ == join_words(char_views(ws@).take(i as int)),
    {
        let ghost pre = char_views(ws@).take(i as int);
        proof {
            lemma_join_push(pre, ws@[i as int]@);
        }
        assert(char_views(ws@).take(i + 1) =~= pre.push(ws@[i as int]@));
        if i > 0 {
            push_char(&mut s, ' ');
        }
        push_all(&mut s, &ws[i]);
        assert(i == 0 ==> pre =~= Seq::<Seq<char>>::empty());
        assert(i > 0 ==> s@ =~= join_words(pre) + seq![' '] + ws@[i as int]@);
    }
    assert(char_views(ws@).take(n as int) =~= char_views(ws@));
    s
}

/// Collapses white space: the words of `string` separated by single spaces,
/// with no white space before the first or after the last.
///
/// `trim_whitespace("  a  b  c  ") == "a b c"`.
pub fn trim_whitespace(string: &str) -> (result: String)
    ensures
        result@ == trimmed(string@),
{
    let v = chars_of(string);
    let ws = split_whitespace(&v);
    join_with_spaces(&ws)
}

// ---------------------------------------------------------------------------
// Laws of white-space collapsing
// ---------------------------------------------------------------------------

proof fn lemma_words_after_separator(a: Seq<char>, w: Seq<char>)
    requires
        a.len() == 0 || is_ws(a.last()),
        w.len() > 0,
        no_ws(w),
    ensures
        words(a + w) == words(a).push(w),
    decreases w.len(),
{
    let x = a + w;
    if w.len() == 1 {
        assert(x.drop_last() =~= a);
        assert(x.last() == w[0]);
        assert(!is_ws(w[0]));
        if x.len() >= 2 {
            assert(x[x.len() - 2] == a.last());
        }
        assert(seq![w[0]] =~= w);
    } else {
        let wp = w.drop_last();
        assert(no_ws(wp)) by {
            assert forall|j: int| 0 <= j < wp.len() implies !is_ws(#[trigger] wp[j]) by {
                assert(wp[j] == w[j]);
            }
        }
        lemma_words_after_separator(a, wp);
        assert(x.drop_last() =~= a + wp);
        assert(x[x.len() - 2] == w[w.len() - 2]);
        assert(!is_ws(w[w.len() - 1]));
        assert(!is_ws(w[w.len() - 2]));
        let prev = words(a).push(wp);
        assert(prev.update(prev.len() - 1, prev.last().push(x.last())) =~= words(a).push(w)) by {
            assert(wp.push(w.last()) =~= w);
        }
    }
}

proof fn lemma_join_facts(ws: Seq<Seq<char>>)
    requires
        good_words(ws),
    ensures
        ws.len() > 0 ==> join_words(ws).len() > 0 && join_words(ws)[0] == ws[0][0] && join_words(
            ws,
        ).last() == ws.last().last(),
        is_normalized(join_words(ws)),
        words(join_words(ws)) == ws,
    decreases ws.len(),
{
    if ws.len() == 0 {
    } else if ws.len() == 1 {
        let w = ws[0];
        assert(seq![] + w =~= w);
        lemma_words_after_separator(seq![], w);
        assert(Seq::<Seq<char>>::empty().push(w) =~= ws);
    } else {
        let pre = ws.drop_last();
        let w = ws.last();
        assert(good_words(pre)) by {
            assert forall|i: int| 0 <= i < pre.len() implies (#[trigger] pre[i]).len() > 0 && no_ws(
                pre[i],
            ) by {
                assert(pre[i] == ws[i]);
            }
        }
        assert(w == ws[ws.len() - 1]);
        lemma_join_facts(pre);
        let j = join_words(pre);
        let a = j + seq![' '];
        assert(join_words(ws) == a + w);
        // words of the joined text
        assert(a.drop_last() =~= j);
        lemma_words_after_separator(a, w);
        assert(pre.push(w) =~= ws);
        // normalization
        let t = a + w;
        assert forall|i: int| 0 <= i < t.len() && is_ws(#[trigger] t[i]) implies t[i] == ' '
            && 0 < i && i + 1 < t.len() && !is_ws(t[i - 1]) && !is_ws(t[i + 1]) by {
            if i < j.len() {
                assert(t[i] == j[i]);
                if i + 1 < j.len() {
                    assert(t[i + 1] == j[i + 1]);
                } else {
                    assert(j[i] == j.last());
                    assert(pre.last() == pre[pre.len() - 1]);
                    assert(!is_ws(pre.last()[pre.last().len() - 1]));
                }
                if i > 0 {
                    assert(t[i - 1] == j[i - 1]);
                }
            } else if i == j.len() {
                assert(t[i - 1] == j.last());
                assert(pre.last() == pre[pre.len() - 1]);
                assert(!is_ws(pre.last()[pre.last().len() - 1]));
                assert(t[i + 1] == w[0]);
            } else {
                assert(t[i] == w[i - j.len() - 1]);
            }
        }
        assert(t[0] == j[0]);
        assert(t.last() == w.last());
        assert(pre[0] == ws[0]);
    }
}

/// Collapsing white space twice gives what collapsing it once gives.
pub proof fn law_trim_whitespace_idempotent(s: Seq<char>)
    ensures
        trimmed(trimmed(s)) == trimmed(s),
        is_normalized(trimmed(s)),
{
    lemma_words_good(s);
    lemma_join_facts(words(s));
}

// ---------------------------------------------------------------------------
// Markdown, camel case, hashtags, identifiers
// ---------------------------------------------------------------------------

/// The characters of `s` without the markdown markers `*` and `_`.
pub open spec fn without_markdown(s: Seq<char>) -> Seq<char> {
    s.filter(|c: char| c != '*' && c != '_')
}

/// Removes the markdown emphasis markers: every `*` (runs of them included)
/// and every `_`.
///
/// `remove_markdown("**Hello** *World*") == "Hello World"`.
pub fn remove_markdown(string: &str) -> (result: String)
    ensures
        result@ == without_markdown(string@),
{
    let v = chars_of(string);
    let mut result = String::new();
    let n = v.len();
    for i in 0..n
        invariant
            n == v.len(),
            v@ == string@,
            result@ == without_markdown(v@.take(i as int)),
    {
        let c = v[i];
        assert(v@.take(i + 1).drop_last() =~= v@.take(i as int));
        proof {
            reveal_with_fuel(Seq::<_>::filter, 1);
        }
        if c != '*' && c != '_' {
            push_char(&mut result, c);
        }
    }
    assert(v@.take(n as int) =~= v@);
    result
}

/// A space goes before position `j` of `t` when the character there is
/// upper-case, is not the first one, and is followed by a lower-case
/// character, or is the last one and does not end a run of capitals: `aB`
/// gives `a B`, while acronyms such as `HTML` stay together, at the end too.
pub open spec fn camel_break(t: Seq<char>, j: int) -> bool {
    &&& 0 < j < t.len()
    &&& unicode_uppercase(t[j])
    &&& if j + 1 < t.len() {
        unicode_lowercase(t[j + 1])
    } else {
        !unicode_uppercase(t[j - 1])
    }
}

/// The first `n` characters of `t`, each preceded by a space where
/// `camel_break` holds.
pub open spec fn camel_upto(t: Seq<char>, n: nat) -> Seq<char>
    decreases n,
{
    if n == 0 {
        seq![]
    } else {
        let prev = camel_upto(t, (n - 1) as nat);
        let j = n - 1;
        if camel_break(t, j) {
            prev.push(' ').push(t[j])
        } else {
            prev.push(t[j])
        }
    }
}

/// `t` with camel-case words separated by spaces.
pub open spec fn camel_spaced(t: Seq<char>) -> Seq<char> {
    camel_upto(t, t.len())
}

/// Not a space.
pub open spec fn not_space(c: char) -> bool {
    c != ' '
}

proof fn lemma_camel_upto_keeps_text(t: Seq<char>, n: nat)
    requires
        n <= t.len(),
    ensures
        camel_upto(t, n).filter(|c: char| not_space(c)) == t.take(n as int).filter(
            |c: char| not_space(c),
        ),
        camel_upto(t, n).len() >= n,
    decreases n,
{
    broadcast use Seq::lemma_filter_push;

    if n > 0 {
        lemma_camel_upto_keeps_text(t, (n - 1) as nat);
        assert(t.take(n as int) =~= t.take(n - 1).push(t[n - 1]));
    }
}

/// Separating camel-case words only inserts spaces: leaving spaces aside,
/// the text is unchanged, and it is never shorter.
pub proof fn law_camel_case_only_inserts_spaces(t: Seq<char>)
    ensures
        camel_spaced(t).filter(|c: char| not_space(c)) == t.filter(|c: char| not_space(c)),
        camel_spaced(t).len() >= t.len(),
{
    lemma_camel_upto_keeps_text(t, t.len());
    assert(t.take(t.len() as int) =~= t);
}

/// Acronyms stay together: no space goes before a character that is
/// followed by one that is not lower case (as inside `HTML5`), nor before a
/// last character that follows a capital (as at the end of `HTML`).
pub proof fn law_camel_case_keeps_acronyms(t: Seq<char>, j: int)
    requires
        0 < j < t.len(),
        j + 1 < t.len() ==> !unicode_lowercase(t[j + 1]),
        j + 1 == t.len() ==> unicode_uppercase(t[j - 1]),
    ensures
        !camel_break(t, j),
{
}

/// Separates camel-case words with a space: `"HelloWorld"` gives
/// `"Hello World"` and `"HTML5Parser"` gives `"HTML5 Parser"`.
pub fn parse_camel_case(text: &str) -> (result: String)
    ensures
        result@ == camel_spaced(text@),
{
    let v = chars_of(text);
    let mut result = String::new();
    let n = v.len();
    for j in 0..n
        invariant
            n == v.len(),
            v@ == text@,
            result@ == camel_upto(v@, j as nat),
    {
        let c = v[j];
        if j > 0 && is_uppercase(c) {
            if j + 1 < n {
                if is_lowercase(v[j + 1]) {
                    push_char(&mut result, ' ');
                }
            } else if !is_uppercase(v[j - 1]) {
                push_char(&mut result, ' ');
            }
        }
        push_char(&mut result, c);
    }
    result
}

/// A space goes before position `j` of a hashtag body `b` when an upper-case
/// character that is not the first one is followed by a lower-case one.
pub open spec fn hashtag_break(b: Seq<char>, j: int) -> bool {
    0 < j && j + 1 < b.len() && unicode_uppercase(b[j]) && unicode_lowercase(b[j + 1])
}

/// The first `n` characters of the hashtag body `b`, each preceded by a
/// space where `hashtag_break` holds.
pub open spec fn hashtag_body_upto(b: Seq<char>, n: nat) -> Seq<char>
    decreases n,
{
    if n == 0 {
        seq![]
    } else {
        let prev = hashtag_body_upto(b, (n - 1) as nat);
        let j = n - 1;
        if hashtag_break(b, j) {
            prev.push(' ').push(b[j])
        } else {
            prev.push(b[j])
        }
    }
}

/// Inside a hashtag body, a space goes before exactly the upper-case
/// characters, other than the first, that are followed by a lower-case
/// one, whatever comes before them: `BBCNews` is written `BBC News`.
pub proof fn law_hashtag_splits_before_capitalized_words(b: Seq<char>, j: int)
    requires
        0 <= j < b.len(),
    ensures
        0 < j && j + 1 < b.len() && unicode_uppercase(b[j]) && unicode_lowercase(b[j + 1])
            ==> hashtag_body_upto(b, (j + 1) as nat) == hashtag_body_upto(b, j as nat) + seq![
            ' ',
            b[j],
        ],
        !(0 < j && j + 1 < b.len() && unicode_uppercase(b[j]) && unicode_lowercase(b[j + 1]))
            ==> hashtag_body_upto(b, (j + 1) as nat) == hashtag_body_upto(b, j as nat).push(
            b[j],
        ),
{
    assert(hashtag_body_upto(b, j as nat).push(' ').push(b[j]) =~= hashtag_body_upto(
        b,
        j as nat,
    ) + seq![' ', b[j]]);
}

/// A word as `parse_hashtag` writes it: a hashtag (`#` and at least one more
/// character) gets its camel-case words separated; any other word is kept.
pub open spec fn hashtag_word(w: Seq<char>) -> Seq<char> {
    if w.len() > 1 && w[0] == '#' {
        seq!['#'] + hashtag_body_upto(w.drop_first(), (w.len() - 1) as nat)
    } else {
        w
    }
}

/// The words after hashtag splitting, each followed by a space.
pub open spec fn hashtag_line(ws: Seq<Seq<char>>) -> Seq<char>
    decreases ws.len(),
{
    if ws.len() == 0 {
        seq![]
    } else {
        hashtag_line(ws.drop_last()) + hashtag_word(ws.last()) + seq![' ']
    }
}

/// Writes the hashtags of `string` with their camel-case words separated
/// and collapses the white space: `"#helloWorld"` gives `"#hello World"`.
pub fn parse_hashtag(string: &str) -> (result: String)
    ensures
        result@ == trimmed(hashtag_line(words(string@))),
{
    let v = chars_of(string);
    let ws = split_whitespace(&v);
    let mut line = String::new();
    let m = ws.len();
    for i in 0..m
        invariant
            m == ws.len(),
            char_views(ws@) == words(string@),
            line@ == hashtag_line(char_views(ws@).take(i as int)),
    {
        let w = &ws[i];
        let ghost pre = line@;
        assert(char_views(ws@).take(i + 1).drop_last() =~= char_views(ws@).take(i as int));
        assert(char_views(ws@).take(i + 1).last() == w@);
        let len = w.len();
        if len > 1 && w[0] == '#' {
            push_char(&mut line, '#');
            let ghost body = w@.drop_first();
            for k in 0..len - 1
                invariant
                    len == w.len(),
                    len > 1,
                    body == w@.drop_first(),
                    line@ == pre + seq!['#'] + hashtag_body_upto(body, k as nat),
            {
                let c = w[k + 1];
                assert(body[k as int] == c);
                if is_uppercase(c) && k > 0 && k + 2 < len {
                    assert(body[k + 1] == w@[k + 2]);
                    if is_lowercase(w[k + 2]) {
                        push_char(&mut line, ' ');
                    }
                }
                push_char(&mut line, c);
                proof {
                    if k + 2 < len {
                        assert(body[k + 1] == w@[k + 2]);
                    }
                }
            }
        } else {
            push_all(&mut line, w);
        }
        push_char(&mut line, ' ');
    }
    assert(char_views(ws@).take(m as int) =~= char_views(ws@));
    trim_whitespace(line.as_str())
}

/// `_` and `-` replaced by spaces.
pub open spec fn separators_as_spaces(s: Seq<char>) -> Seq<char> {
    s.map_values(|c: char| if c == '_' || c == '-' { ' ' } else { c })
}

/// What `read_vars` says of `s`: separators become spaces, camel-case words
/// are separated, markdown markers are dropped and white space collapsed.
pub open spec fn read_vars_text(s: Seq<char>) -> Seq<char> {
    trimmed(without_markdown(camel_spaced(separators_as_spaces(s))))
}

/// Makes an identifier readable (snake_case, kebab-case, CamelCase):
/// `"hello_world"` and `"hello-world"` give `"hello world"`, and
/// `"HelloWorld"` gives `"Hello World"`.
pub fn read_vars(string: &str) -> (result: String)
    ensures
        result@ == read_vars_text(string@),
{
    let v = chars_of(string);
    let mut spaced = String::new();
    let n = v.len();
    for i in 0..n
        invariant
            n == v.len(),
            v@ == string@,
            spaced@ == separators_as_spaces(v@.take(i as int)),
    {
        let c = v[i];
        if c == '_' || c == '-' {
            push_char(&mut spaced, ' ');
        } else {
            push_char(&mut spaced, c);
        }
        assert(separators_as_spaces(v@.take(i + 1)) =~= separators_as_spaces(v@.take(i as int)).push(
            if c == '_' || c == '-' { ' ' } else { c }));
    }
    assert(v@.take(n as int) =~= v@);
    let camel = parse_camel_case(spaced.as_str());
    let plain = remove_markdown(camel.as_str());
    trim_whitespace(plain.as_str())
}

// ---------------------------------------------------------------------------
// Look-alike and stylised characters
// ---------------------------------------------------------------------------

/// Quote and bracket characters that are read as a space.
pub open spec fn quote_chars() -> Seq<char> {
    seq!['"', '\'', '`', '[', ']', '{', '}']
}

/// Small capitals and Cyrillic letters with the Latin letter they look like.
pub open spec fn lookalike_pairs() -> Seq<(char, char)> {
    seq![
        ('ᴀ', 'a'), ('ʙ', 'b'), ('ᴄ', 'c'), ('ᴅ', 'd'), ('ᴇ', 'e'), ('ɢ', 'g'), ('ʜ',
        'h'), ('ɪ', 'i'), ('ᴊ', 'j'), ('ᴋ', 'k'), ('ʟ', 'l'), ('ᴍ', 'm'), ('ɴ', 'n'),
        ('ᴏ', 'o'), ('ᴘ', 'p'), ('ʀ', 'r'), ('ᴛ', 't'), ('ᴜ', 'u'), ('ᴠ', 'v'), ('ᴡ',
        'w'), ('ʏ', 'y'), ('ᴢ', 'z'), ('а', 'a'), ('А', 'A'), ('в', 'b'), ('В', 'b'),
        ('г', 'r'), ('ғ', 'f'), ('е', 'e'), ('Е', 'E'), ('ѕ', 's'), ('Ѕ', 'S'), ('и',
        'n'), ('і', 'i'), ('І', 'I'), ('к', 'k'), ('К', 'k'), ('л', 'n'), ('м', 'm'),
        ('М', 'm'), ('н', 'h'), ('Н', 'H'), ('о', 'o'), ('О', 'O'), ('р', 'p'), ('Р',
        'p'), ('с', 'c'), ('С', 'C'), ('т', 't'), ('Т', 'T'), ('у', 'y'), ('х', 'x'),
    ]
}

/// First letters (`A` or `a`) of the stylised alphabets: mathematical bold,
/// italic, script, fraktur, double-struck, sans-serif and monospace letters,
/// full-width letters and enclosed letters.
pub open spec fn alphabet_bases() -> Seq<char> {
    seq![
        '𝐀', '𝐚', '𝑨', '𝒂', '𝒜', '𝒶', '𝔸', '𝕒', '𝕬', '𝖆', '𝖠', '𝖺', '𝗔', '𝗮', '𝘈', '𝘢',
        '𝘼', '𝙖', '𝙰', '𝚊', '𝐴', '𝑎', '𝔄', '𝔞', '𝓐', '𝓪', 'Ａ', 'ａ', '🅰', '🅐',
    ]
}

/// First digits (`0`) of the stylised digit sets.
pub open spec fn digit_bases() -> Seq<char> {
    seq!['𝟎', '𝟘', '𝟢', '𝟬', '𝟶']
}

/// Whether code point `k` is one of the characters in `q`.
pub open spec fn in_chars(q: Seq<char>, k: u32) -> bool
    decreases q.len(),
{
    q.len() > 0 && (q.last() as u32 == k || in_chars(q.drop_last(), k))
}

/// The replacement of code point `k` in the pairs `p`, the last pair
/// naming `k` winning.
pub open spec fn pair_lookup(p: Seq<(char, char)>, k: u32) -> Option<char>
    decreases p.len(),
{
    if p.len() == 0 {
        None
    } else if p.last().0 as u32 == k {
        Some(p.last().1)
    } else {
        pair_lookup(p.drop_last(), k)
    }
}

/// The replacement of code point `k` when it lies in one of the blocks of
/// `width` consecutive code points starting at the `bases`: the character
/// at the same offset from `first`, the last block holding `k` winning.
pub open spec fn block_lookup(bases: Seq<char>, width: u32, first: char, k: u32) -> Option<char>
    decreases bases.len(),
{
    if bases.len() == 0 {
        None
    } else {
        let b = bases.last() as u32;
        if b <= k && k < b + width {
            Some(((first as u32) + (k - b)) as char)
        } else {
            block_lookup(bases.drop_last(), width, first, k)
        }
    }
}

/// What code point `k` is replaced by, if anything: a stylised digit by its
/// ASCII digit, a stylised letter by its lower-case ASCII letter, a
/// look-alike by its Latin letter, a quote or bracket by a space.
pub open spec fn replacement_of(k: u32) -> Option<char> {
    match block_lookup(digit_bases(), 10, '0', k) {
        Some(t) => Some(t),
        None => match block_lookup(alphabet_bases(), 26, 'a', k) {
            Some(t) => Some(t),
            None => match pair_lookup(lookalike_pairs(), k) {
                Some(t) => Some(t),
                None => if in_chars(quote_chars(), k) {
                    Some(' ')
                } else {
                    None
                },
            },
        },
    }
}

/// The table of replacements, keyed by code point.
pub open spec fn char_mapping() -> Map<u32, char> {
    Map::new(|k: u32| replacement_of(k) is Some, |k: u32| replacement_of(k)->0)
}

/// The character `c` is read as.
pub open spec fn special_char(c: char) -> char {
    match replacement_of(c as u32) {
        Some(t) => t,
        None => c,
    }
}

spec fn after_quotes(i: int, k: u32) -> Option<char> {
    if in_chars(quote_chars().take(i), k) {
        Some(' ')
    } else {
        None
    }
}

spec fn after_pairs(i: int, k: u32) -> Option<char> {
    match pair_lookup(lookalike_pairs().take(i), k) {
        Some(t) => Some(t),
        None => after_quotes(7, k),
    }
}

spec fn after_alphabets(bi: int, i: u32, k: u32) -> Option<char> {
    let b = alphabet_bases()[bi] as u32;
    if bi < 30 && b <= k && k < b + i {
        Some((('a' as u32) + (k - b)) as char)
    } else {
        match block_lookup(alphabet_bases().take(bi), 26, 'a', k) {
            Some(t) => Some(t),
            None => after_pairs(52, k),
        }
    }
}

spec fn after_digits(bi: int, i: u32, k: u32) -> Option<char> {
    let b = digit_bases()[bi] as u32;
    if bi < 5 && b <= k && k < b + i {
        Some((('0' as u32) + (k - b)) as char)
    } else {
        match block_lookup(digit_bases().take(bi), 10, '0', k) {
            Some(t) => Some(t),
            None => after_alphabets(30, 0, k),
        }
    }
}

/// `m` maps exactly the code points `f` gives a replacement for, to it.
spec fn map_matches(m: Map<u32, char>, f: spec_fn(u32) -> Option<char>) -> bool {
    &&& forall|k: u32| #[trigger] m.contains_key(k) == f(k) is Some
    &&& forall|k: u32| #[trigger] m.contains_key(k) ==> m[k] == f(k)->0
}

/// Builds the replacement table of look-alike and stylised characters,
/// keyed by code point.
#[verifier::spinoff_prover]
#[verifier::rlimit(50)]
pub fn create_character_mapping() -> (mapping: HashMap<u32, char>)
    ensures
        mapping@ == char_mapping(),
{
    broadcast use vstd::std_specs::hash::group_hash_axioms;

    let mut mapping: HashMap<u32, char> = HashMap::with_capacity(200);

    // quotes and brackets become spaces
    let quotes: Vec<char> = vec!['"', '\'', '`', '[', ']', '{', '}'];
    assert(quotes@ =~= quote_chars());
    for i in 0..7
        invariant
            quotes@ == quote_chars(),
            map_matches(mapping@, |k: u32| after_quotes(i as int, k)),
    {
        let q = quotes[i];
        mapping.insert(q as u32, ' ');
        assert(quote_chars().take(i + 1).drop_last() =~= quote_chars().take(i as int));
    }

    // look-alike letters
    let pairs: Vec<(char, char)> = vec![
        ('ᴀ', 'a'), ('ʙ', 'b'), ('ᴄ', 'c'), ('ᴅ', 'd'), ('ᴇ', 'e'), ('ɢ', 'g'), ('ʜ',
        'h'), ('ɪ', 'i'), ('ᴊ', 'j'), ('ᴋ', 'k'), ('ʟ', 'l'), ('ᴍ', 'm'), ('ɴ', 'n'),
        ('ᴏ', 'o'), ('ᴘ', 'p'), ('ʀ', 'r'), ('ᴛ', 't'), ('ᴜ', 'u'), ('ᴠ', 'v'), ('ᴡ',
        'w'), ('ʏ', 'y'), ('ᴢ', 'z'), ('а', 'a'), ('А', 'A'), ('в', 'b'), ('В', 'b'),
        ('г', 'r'), ('ғ', 'f'), ('е', 'e'), ('Е', 'E'), ('ѕ', 's'), ('Ѕ', 'S'), ('и',
        'n'), ('і', 'i'), ('І', 'I'), ('к', 'k'), ('К', 'k'), ('л', 'n'), ('м', 'm'),
        ('М', 'm'), ('н', 'h'), ('Н', 'H'), ('о', 'o'), ('О', 'O'), ('р', 'p'), ('Р',
        'p'), ('с', 'c'), ('С', 'C'), ('т', 't'), ('Т', 'T'), ('у', 'y'), ('х', 'x'),
    ];
    assert(pairs@ =~= lookalike_pairs());
    for i in 0..52
        invariant
            pairs@ == lookalike_pairs(),
            map_matches(mapping@, |k: u32| after_pairs(i as int, k)),
    {
        let (from, to) = pairs[i];
        mapping.insert(from as u32, to);
        assert(lookalike_pairs().take(i + 1).drop_last() =~= lookalike_pairs().take(i as int));
    }

    // stylised alphabets
    let alphabets: Vec<char> = vec![
        '𝐀', '𝐚', '𝑨', '𝒂', '𝒜', '𝒶', '𝔸', '𝕒', '𝕬', '𝖆', '𝖠', '𝖺', '𝗔', '𝗮', '𝘈', '𝘢',
        '𝘼', '𝙖', '𝙰', '𝚊', '𝐴', '𝑎', '𝔄', '𝔞', '𝓐', '𝓪', 'Ａ', 'ａ', '🅰', '🅐',
    ];
    assert(alphabets@ =~= alphabet_bases());
    for bi in 0..30
        invariant
            alphabets@ == alphabet_bases(),
            map_matches(mapping@, |k: u32| after_alphabets(bi as int, 0, k)),
    {
        let base = alphabets[bi] as u32;
        for i in 0..26u32
            invariant
                alphabets@ == alphabet_bases(),
                0 <= bi < 30,
                base == alphabet_bases()[bi as int] as u32,
                map_matches(mapping@, |k: u32| after_alphabets(bi as int, i, k)),
        {
            let to = (97u32 + i) as u8 as char;
            mapping.insert(base + i, to);
        }
        assert(alphabet_bases().take(bi + 1).drop_last() =~= alphabet_bases().take(bi as int));
    }

    // stylised digits
    let digits: Vec<char> = vec!['𝟎', '𝟘', '𝟢', '𝟬', '𝟶'];
    assert(digits@ =~= digit_bases());
    for bi in 0..5
        invariant
            digits@ == digit_bases(),
            map_matches(mapping@, |k: u32| after_digits(bi as int, 0, k)),
    {
        let base = digits[bi] as u32;
        for i in 0..10u32
            invariant
                digits@ == digit_bases(),
                0 <= bi < 5,
                base == digit_bases()[bi as int] as u32,
                map_matches(mapping@, |k: u32| after_digits(bi as int, i, k)),
        {
            let to = (48u32 + i) as u8 as char;
            mapping.insert(base + i, to);
        }
        assert(digit_bases().take(bi + 1).drop_last() =~= digit_bases().take(bi as int));
    }
    assert(lookalike_pairs().take(52) =~= lookalike_pairs());
    assert(alphabet_bases().take(30) =~= alphabet_bases());
    assert(digit_bases().take(5) =~= digit_bases());
    assert(quote_chars().take(7) =~= quote_chars());
    assert(mapping@ =~= char_mapping());
    mapping
}

/// Replaces look-alike and stylised characters by plain ones and quotes or
/// brackets by spaces: `"𝐠𝐫𝐚𝐬 et 𝘪𝘵𝘢𝘭𝘪𝘤"` gives `"gras et italic"`.
pub fn remove_special_characters(string: &str) -> (result: String)
    ensures
        result@ == string@.map_values(|c: char| special_char(c)),
{
    broadcast use vstd::std_specs::hash::group_hash_axioms;

    let mapping = create_character_mapping();
    let v = chars_of(string);
    let mut result = String::new();
    let n = v.len();
    for i in 0..n
        invariant
            n == v.len(),
            v@ == string@,
            mapping@ == char_mapping(),
            result@ == v@.take(i as int).map_values(|c: char| special_char(c)),
    {
        let c = v[i];
        let r = match mapping.get(&(c as u32)) {
            Some(t) => *t,
            None => c,
        };
        push_char(&mut result, r);
        assert(v@.take(i + 1).map_values(|c: char| special_char(c)) =~= v@.take(i as int).map_values(
            |c: char| special_char(c),
        ).push(special_char(c)));
    }
    assert(v@.take(n as int) =~= v@);
    result
}

proof fn lemma_block_lookup_range(bases: Seq<char>, width: u32, first: char, k: u32)
    requires
        (first as u32) + width <= 0xD800,
    ensures
        block_lookup(bases, width, first, k) matches Some(t) ==> (first as u32 <= t as u32 && (
        t as u32) < (first as u32) + width),
    decreases bases.len(),
{
    if bases.len() > 0 {
        lemma_block_lookup_range(bases.drop_last(), width, first, k);
    }
}

proof fn lemma_block_lookup_none(bases: Seq<char>, width: u32, first: char, k: u32)
    requires
        forall|j: int| 0 <= j < bases.len() ==> k < #[trigger] bases[j] as u32,
    ensures
        block_lookup(bases, width, first, k) is None,
    decreases bases.len(),
{
    if bases.len() > 0 {
        assert(bases.last() == bases[bases.len() - 1]);
        lemma_block_lookup_none(bases.drop_last(), width, first, k);
    }
}

proof fn lemma_pair_lookup_none(p: Seq<(char, char)>, k: u32)
    requires
        forall|j: int| 0 <= j < p.len() ==> k < (#[trigger] p[j]).0 as u32,
    ensures
        pair_lookup(p, k) is None,
    decreases p.len(),
{
    if p.len() > 0 {
        assert(p.last() == p[p.len() - 1]);
        lemma_pair_lookup_none(p.drop_last(), k);
    }
}

proof fn lemma_pair_lookup_letter(p: Seq<(char, char)>, k: u32)
    requires
        forall|j: int|
            0 <= j < p.len() ==> (65 <= (#[trigger] p[j]).1 as u32 && p[j].1 as u32 <= 90) || (97
                <= p[j].1 as u32 && p[j].1 as u32 <= 122),
    ensures
        pair_lookup(p, k) matches Some(t) ==> (65 <= t as u32 && t as u32 <= 90) || (97 <= t as u32
            && t as u32 <= 122),
    decreases p.len(),
{
    if p.len() > 0 {
        assert(p.last() == p[p.len() - 1]);
        lemma_pair_lookup_letter(p.drop_last(), k);
    }
}

/// Code points below 128 other than the quotes and brackets are not replaced.
proof fn lemma_ascii_kept(k: u32)
    requires
        k < 128,
        !in_chars(quote_chars(), k),
    ensures
        replacement_of(k) is None,
{
    lemma_block_lookup_none(digit_bases(), 10, '0', k);
    lemma_block_lookup_none(alphabet_bases(), 26, 'a', k);
    lemma_pair_lookup_none(lookalike_pairs(), k);
}

/// Every replacement is a space, an ASCII digit or an ASCII letter.
proof fn lemma_replacement_plain(k: u32)
    ensures
        replacement_of(k) matches Some(t) ==> t == ' ' || (48 <= t as u32 && t as u32 <= 57) || (
        65 <= t as u32 && t as u32 <= 90) || (97 <= t as u32 && t as u32 <= 122),
{
    lemma_block_lookup_range(digit_bases(), 10, '0', k);
    lemma_block_lookup_range(alphabet_bases(), 26, 'a', k);
    lemma_pair_lookup_letter(lookalike_pairs(), k);
}

/// Every replacement in the table is an ASCII character that is itself
/// not replaced, and the ASCII characters that are replaced are exactly the
/// quotes and brackets, each by a space.
pub proof fn law_character_mapping_plain(k: u32)
    ensures
        char_mapping().contains_key(k) ==> (char_mapping()[k] as u32) < 128
            && !char_mapping().contains_key(char_mapping()[k] as u32),
        k < 128 ==> (char_mapping().contains_key(k) == in_chars(quote_chars(), k)),
        k < 128 && char_mapping().contains_key(k) ==> char_mapping()[k] == ' ',
{
    lemma_replacement_plain(k);
    if replacement_of(k) is Some {
        let t = replacement_of(k)->0;
        reveal_with_fuel(in_chars, 8);
        lemma_ascii_kept(t as u32);
    }
    if k < 128 {
        lemma_block_lookup_none(digit_bases(), 10, '0', k);
        lemma_block_lookup_none(alphabet_bases(), 26, 'a', k);
        lemma_pair_lookup_none(lookalike_pairs(), k);
    }
}

/// The pairs give for `k` the replacement of the last pair naming it.
proof fn lemma_pair_lookup_at(p: Seq<(char, char)>, i: int, k: u32)
    requires
        0 <= i < p.len(),
        p[i].0 as u32 == k,
        forall|j: int| i < j < p.len() ==> (#[trigger] p[j]).0 as u32 != k,
    ensures
        pair_lookup(p, k) == Some(p[i].1),
    decreases p.len(),
{
    if i < p.len() - 1 {
        let q = p.drop_last();
        assert(p.last() == p[p.len() - 1]);
        assert forall|j: int| i < j < q.len() implies (#[trigger] q[j]).0 as u32 != k by {
            assert(q[j] == p[j]);
        }
        lemma_pair_lookup_at(q, i, k);
    } else {
        assert(p.last() == p[i]);
    }
}

/// A look-alike below the stylised alphabets that the pairs name is read
/// as the letter the last pair naming it gives.
proof fn lemma_read_as(i: int, c: char, t: char)
    requires
        (c as u32) < 0xFF21,
        0 <= i < lookalike_pairs().len(),
        lookalike_pairs()[i] == (c, t),
        forall|j: int| i < j < lookalike_pairs().len() ==> (#[trigger] lookalike_pairs()[j]).0 != c,
    ensures
        special_char(c) == t,
{
    lemma_pair_lookup_at(lookalike_pairs(), i, c as u32);
    lemma_block_lookup_none(digit_bases(), 10, '0', c as u32);
    lemma_block_lookup_none(alphabet_bases(), 26, 'a', c as u32);
}

/// Each small capital and Cyrillic look-alike is read as the Latin letter
/// it looks like: `ᴀ` as `a`, the Cyrillic `р` and `Р` as `p`, `с` as `c`,
/// `о` as `o`, and so on for the whole list.
pub proof fn law_lookalikes_read_as_latin()
    ensures
        special_char('ᴀ') == 'a',
        special_char('ʙ') == 'b',
        special_char('ᴄ') == 'c',
        special_char('ᴅ') == 'd',
        special_char('ᴇ') == 'e',
        special_char('ɢ') == 'g',
        special_char('ʜ') == 'h',
        special_char('ɪ') == 'i',
        special_char('ᴊ') == 'j',
        special_char('ᴋ') == 'k',
        special_char('ʟ') == 'l',
        special_char('ᴍ') == 'm',
        special_char('ɴ') == 'n',
        special_char('ᴏ') == 'o',
        special_char('ᴘ') == 'p',
        special_char('ʀ') == 'r',
        special_char('ᴛ') == 't',
        special_char('ᴜ') == 'u',
        special_char('ᴠ') == 'v',
        special_char('ᴡ') == 'w',
        special_char('ʏ') == 'y',
        special_char('ᴢ') == 'z',
        special_char('а') == 'a',
        special_char('А') == 'A',
        special_char('в') == 'b',
        special_char('В') == 'b',
        special_char('г') == 'r',
        special_char('ғ') == 'f',
        special_char('е') == 'e',
        special_char('Е') == 'E',
        special_char('ѕ') == 's',
        special_char('Ѕ') == 'S',
        special_char('и') == 'n',
        special_char('і') == 'i',
        special_char('І') == 'I',
        special_char('к') == 'k',
        special_char('К') == 'k',
        special_char('л') == 'n',
        special_char('м') == 'm',
        special_char('М') == 'm',
        special_char('н') == 'h',
        special_char('Н') == 'H',
        special_char('о') == 'o',
        special_char('О') == 'O',
        special_char('р') == 'p',
        special_char('Р') == 'p',
        special_char('с') == 'c',
        special_char('С') == 'C',
        special_char('т') == 't',
        special_char('Т') == 'T',
        special_char('у') == 'y',
        special_char('х') == 'x',
{
    lemma_read_as(0, 'ᴀ', 'a');
    lemma_read_as(1, 'ʙ', 'b');
    lemma_read_as(2, 'ᴄ', 'c');
    lemma_read_as(3, 'ᴅ', 'd');
    lemma_read_as(4, 'ᴇ', 'e');
    lemma_read_as(5, 'ɢ', 'g');
    lemma_read_as(6, 'ʜ', 'h');
    lemma_read_as(7, 'ɪ', 'i');
    lemma_read_as(8, 'ᴊ', 'j');
    lemma_read_as(9, 'ᴋ', 'k');
    lemma_read_as(10, 'ʟ', 'l');
    lemma_read_as(11, 'ᴍ', 'm');
    lemma_read_as(12, 'ɴ', 'n');
    lemma_read_as(13, 'ᴏ', 'o');
    lemma_read_as(14, 'ᴘ', 'p');
    lemma_read_as(15, 'ʀ', 'r');
    lemma_read_as(16, 'ᴛ', 't');
    lemma_read_as(17, 'ᴜ', 'u');
    lemma_read_as(18, 'ᴠ', 'v');
    lemma_read_as(19, 'ᴡ', 'w');
    lemma_read_as(20, 'ʏ', 'y');
    lemma_read_as(21, 'ᴢ', 'z');
    lemma_read_as(22, 'а', 'a');
    lemma_read_as(23, 'А', 'A');
    lemma_read_as(24, 'в', 'b');
    lemma_read_as(25, 'В', 'b');
    lemma_read_as(26, 'г', 'r');
    lemma_read_as(27, 'ғ', 'f');
    lemma_read_as(28, 'е', 'e');
    lemma_read_as(29, 'Е', 'E');
    lemma_read_as(30, 'ѕ', 's');
    lemma_read_as(31, 'Ѕ', 'S');
    lemma_read_as(32, 'и', 'n');
    lemma_read_as(33, 'і', 'i');
    lemma_read_as(34, 'І', 'I');
    lemma_read_as(35, 'к', 'k');
    lemma_read_as(36, 'К', 'k');
    lemma_read_as(37, 'л', 'n');
    lemma_read_as(38, 'м', 'm');
    lemma_read_as(39, 'М', 'm');
    lemma_read_as(40, 'н', 'h');
    lemma_read_as(41, 'Н', 'H');
    lemma_read_as(42, 'о', 'o');
    lemma_read_as(43, 'О', 'O');
    lemma_read_as(44, 'р', 'p');
    lemma_read_as(45, 'Р', 'p');
    lemma_read_as(46, 'с', 'c');
    lemma_read_as(47, 'С', 'C');
    lemma_read_as(48, 'т', 't');
    lemma_read_as(49, 'Т', 'T');
    lemma_read_as(50, 'у', 'y');
    lemma_read_as(51, 'х', 'x');
}

/// Replacing look-alike and stylised characters a second time changes
/// nothing: every replacement is a plain character that is kept.
pub proof fn law_remove_special_characters_idempotent(s: Seq<char>)
    ensures
        s.map_values(|c: char| special_char(c)).map_values(|c: char| special_char(c))
            == s.map_values(|c: char| special_char(c)),
{
    assert forall|c: char| special_char(#[trigger] special_char(c)) == special_char(c) by {
        lemma_replacement_plain(c as u32);
        let t = special_char(c);
        if replacement_of(c as u32) is Some {
            reveal_with_fuel(in_chars, 8);
            lemma_ascii_kept(t as u32);
        }
    }
    assert(s.map_values(|c: char| special_char(c)).map_values(|c: char| special_char(c))
        =~= s.map_values(|c: char| special_char(c)));
}

// ---------------------------------------------------------------------------
// Laws of the cleaning functions
// ---------------------------------------------------------------------------

proof fn lemma_words_chars(s: Seq<char>)
    ensures
        forall|i: int, j: int|
            0 <= i < words(s).len() && 0 <= j < words(s)[i].len() ==> s.contains(
                #[trigger] words(s)[i][j],
            ),
    decreases s.len(),
{
    if s.len() > 0 {
        let d = s.drop_last();
        lemma_words_chars(d);
        lemma_words_good(d);
        let prev = words(d);
        if s.len() >= 2 {
            assert(d.last() == s[s.len() - 2]);
        }
        let c = s.last();
        assert(s[s.len() - 1] == c);
        assert forall|x: char| d.contains(x) implies s.contains(x) by {
            let k = choose|k: int| 0 <= k < d.len() && d[k] == x;
            assert(s[k] == x);
        }
        let ws = words(s);
        assert forall|i: int, j: int| 0 <= i < ws.len() && 0 <= j < ws[i].len() implies s.contains(
            #[trigger] ws[i][j],
        ) by {
            if is_ws(c) {
            } else if s.len() >= 2 && !is_ws(s[s.len() - 2]) {
                if i == prev.len() - 1 && j == ws[i].len() - 1 {
                    assert(ws[i][j] == c);
                } else if i == prev.len() - 1 {
                    assert(ws[i][j] == prev[i][j]);
                } else {
                    assert(ws[i] == prev[i]);
                }
            } else {
                if i < prev.len() {
                    assert(ws[i] == prev[i]);
                }
            }
        }
    }
}

proof fn lemma_join_chars(ws: Seq<Seq<char>>, c: char)
    requires
        c != ' ',
        join_words(ws).contains(c),
    ensures
        exists|i: int, j: int| 0 <= i < ws.len() && 0 <= j < ws[i].len() && ws[i][j] == c,
    decreases ws.len(),
{
    let t = join_words(ws);
    let k = choose|k: int| 0 <= k < t.len() && t[k] == c;
    if ws.len() == 1 {
        assert(ws[0][k] == c);
    } else if ws.len() > 1 {
        let pre = ws.drop_last();
        let j = join_words(pre);
        if k < j.len() {
            assert(j[k] == c);
            lemma_join_chars(pre, c);
            let (i, jj) = choose|i: int, jj: int|
                0 <= i < pre.len() && 0 <= jj < pre[i].len() && pre[i][jj] == c;
            assert(ws[i] == pre[i]);
        } else {
            assert(k > j.len());
            assert(ws.last()[k - j.len() - 1] == c);
            assert(ws[ws.len() - 1] == ws.last());
        }
    }
}

/// Collapsing white space adds no character other than spaces.
proof fn lemma_trimmed_chars(s: Seq<char>, c: char)
    requires
        c != ' ',
        trimmed(s).contains(c),
    ensures
        s.contains(c),
{
    lemma_join_chars(words(s), c);
    lemma_words_chars(s);
    let (i, j) = choose|i: int, j: int|
        0 <= i < words(s).len() && 0 <= j < words(s)[i].len() && words(s)[i][j] == c;
}

proof fn lemma_camel_chars(t: Seq<char>, n: nat, c: char)
    requires
        c != ' ',
        n <= t.len(),
        camel_upto(t, n).contains(c),
    ensures
        t.contains(c),
    decreases n,
{
    let r = camel_upto(t, n);
    let k = choose|k: int| 0 <= k < r.len() && r[k] == c;
    let prev = camel_upto(t, (n - 1) as nat);
    if k < prev.len() {
        assert(prev[k] == c);
        lemma_camel_chars(t, (n - 1) as nat, c);
    } else {
        assert(t[n - 1] == c);
    }
}

/// Removing markdown twice removes what removing it once does, and leaves
/// no `*` and no `_`.
pub proof fn law_remove_markdown(s: Seq<char>)
    ensures
        without_markdown(without_markdown(s)) == without_markdown(s),
        !without_markdown(s).contains('*'),
        !without_markdown(s).contains('_'),
{
    let p = |c: char| c != '*' && c != '_';
    let t = s.filter(p);
    assert forall|i: int| 0 <= i < t.len() implies p(#[trigger] t[i]) by {
        s.lemma_filter_pred(p, i);
    }
    lemma_filter_all(t, p);
}

proof fn lemma_filter_all(t: Seq<char>, p: spec_fn(char) -> bool)
    requires
        forall|i: int| 0 <= i < t.len() ==> p(#[trigger] t[i]),
    ensures
        t.filter(p) == t,
    decreases t.len(),
{
    reveal_with_fuel(Seq::<_>::filter, 1);
    if t.len() > 0 {
        let d = t.drop_last();
        assert forall|i: int| 0 <= i < d.len() implies p(#[trigger] d[i]) by {
            assert(d[i] == t[i]);
        }
        lemma_filter_all(d, p);
        assert(p(t[t.len() - 1]));
        assert(d.push(t.last()) =~= t);
    }
}

/// What `read_vars` gives holds no `_`, `-` or `*`, and its white space is
/// single spaces between words.
pub proof fn law_read_vars_clean(s: Seq<char>)
    ensures
        !read_vars_text(s).contains('_'),
        !read_vars_text(s).contains('-'),
        !read_vars_text(s).contains('*'),
        is_normalized(read_vars_text(s)),
{
    let x0 = separators_as_spaces(s);
    let x1 = camel_spaced(x0);
    let x2 = without_markdown(x1);
    law_remove_markdown(x1);
    law_trim_whitespace_idempotent(x2);
    assert forall|c: char| c == '_' || c == '-' implies !x0.contains(c) by {
        if x0.contains(c) {
            let k = choose|k: int| 0 <= k < x0.len() && x0[k] == c;
        }
    }
    assert forall|c: char| (c == '_' || c == '-' || c == '*') && read_vars_text(s).contains(c)
        implies false by {
        lemma_trimmed_chars(x2, c);
        if c == '-' {
            x1.lemma_filter_contains_rev(|c: char| c != '*' && c != '_', c);
            lemma_camel_chars(x0, x0.len(), c);
        }
    }
}

/// What `parse_hashtag` gives has single spaces between words and no other
/// white space.
pub proof fn law_parse_hashtag_normalized(s: Seq<char>)
    ensures
        is_normalized(trimmed(hashtag_line(words(s)))),
{
    law_trim_whitespace_idempotent(hashtag_line(words(s)));
}

} // verus!
