//! A dependency-free `key = value` configuration reader.
//!
//! A configuration text is split into lines at each `\n`. `#` starts a
//! comment: each line is cut at its first `#`, and what is left is trimmed of
//! Unicode whitespace. A line left empty is skipped, and so is a line without
//! `=`. Otherwise the text before the first `=` is the key and the text after
//! it the value, both trimmed. A later line with the same key replaces the
//! earlier value.

use vstd::prelude::*;
use crate::text::{
    chars_of, copy_range, eq_ascii_lowered, eq_ascii_lowered_chars, find_char,
    index_of_char, is_ws, lemma_index_of_char, lemma_trim_drops_white_space, leading_ws,
    trailing_ws, parse_usize, parse_usize_spec, string_of, trim, trim_chars,
};

verus! {

/// The lines of `text`: the pieces between the `\n` characters. A text with
/// no `\n` is one line, and a `\n` at the end leaves an empty last line.
pub open spec fn split_lines(text: Seq<char>) -> Seq<Seq<char>>
    decreases text.len(),
{
    if text.len() == 0 {
        seq![Seq::<char>::empty()]
    } else {
        let p = split_lines(text.drop_last());
        if text.last() == '\n' {
            p.push(Seq::<char>::empty())
        } else {
            p.update(p.len() - 1, p.last().push(text.last()))
        }
    }
}

/// `line` without its comment: the text before its first `#`, or all of it.
pub open spec fn strip_comment(line: Seq<char>) -> Seq<char> {
    match index_of_char(line, '#') {
        Some(i) => line.take(i),
        None => line,
    }
}

/// The key and value that one line sets, if it sets any: the line is cut at
/// its first `#` and trimmed; when something is left that holds a `=`, the
/// trimmed text before the first `=` is the key and the trimmed text after
/// it the value.
pub open spec fn line_entry(line: Seq<char>) -> Option<(Seq<char>, Seq<char>)> {
    let t = trim(strip_comment(line));
    if t.len() == 0 {
        None
    } else {
        match index_of_char(t, '=') {
            Some(i) => Some((trim(t.take(i)), trim(t.skip(i + 1)))),
            None => None,
        }
    }
}

/// The keys and values that `lines` set, in order.
pub open spec fn line_entries(lines: Seq<Seq<char>>) -> Seq<(Seq<char>, Seq<char>)>
    decreases lines.len(),
{
    if lines.len() == 0 {
        Seq::empty()
    } else {
        let prev = line_entries(lines.drop_last());
        match line_entry(lines.last()) {
            Some(e) => prev.push(e),
            None => prev,
        }
    }
}

/// The map that setting `entries` one after another builds: a later entry
/// replaces an earlier one with the same key.
pub open spec fn entries_map(entries: Seq<(Seq<char>, Seq<char>)>) -> Map<Seq<char>, Seq<char>>
    decreases entries.len(),
{
    if entries.len() == 0 {
        Map::empty()
    } else {
        entries_map(entries.drop_last()).insert(entries.last().0, entries.last().1)
    }
}

/// The settings that the configuration text `text` holds.
pub open spec fn config_map(text: Seq<char>) -> Map<Seq<char>, Seq<char>> {
    entries_map(line_entries(split_lines(text)))
}

/// A value that `Cfg::bool` reads as on: `on`, `true`, `1` or `yes`, in any
/// ASCII case.
pub open spec fn is_on_word(v: Seq<char>) -> bool {
    ||| eq_ascii_lowered(v, seq!['o', 'n'])
    ||| eq_ascii_lowered(v, seq!['t', 'r', 'u', 'e'])
    ||| eq_ascii_lowered(v, seq!['1'])
    ||| eq_ascii_lowered(v, seq!['y', 'e', 's'])
}

proof fn lemma_eq_ascii_lowered_chars(v: Seq<char>, w: Seq<char>)
    requires
        forall|i: int| 0 <= i < w.len() ==> ('a' <= #[trigger] w[i] <= 'z') || ('0' <= w[i] <= '9'),
    ensures
        eq_ascii_lowered(v, w) <==> (v.len() == w.len() && forall|i: int|
            0 <= i < v.len() ==> (#[trigger] v[i] == w[i] || ('a' <= w[i] <= 'z' && v[i] as int
                + 32 == w[i] as int))),
{
}

/// A switch is on exactly for the words `on`, `true`, `1` and `yes`, each
/// letter small or capital: any other value, such as `false`, `off`, `0` or
/// the empty text, reads as off.
pub proof fn lemma_on_words(v: Seq<char>)
    ensures
        is_on_word(v) <==> {
            ||| (v.len() == 2 && (v[0] == 'o' || v[0] == 'O') && (v[1] == 'n' || v[1] == 'N'))
            ||| (v.len() == 4 && (v[0] == 't' || v[0] == 'T') && (v[1] == 'r' || v[1] == 'R') && (
            v[2] == 'u' || v[2] == 'U') && (v[3] == 'e' || v[3] == 'E'))
            ||| (v.len() == 1 && v[0] == '1')
            ||| (v.len() == 3 && (v[0] == 'y' || v[0] == 'Y') && (v[1] == 'e' || v[1] == 'E') && (
            v[2] == 's' || v[2] == 'S'))
        },
{
    let on = seq!['o', 'n'];
    let tr = seq!['t', 'r', 'u', 'e'];
    let one = seq!['1'];
    let yes = seq!['y', 'e', 's'];
    lemma_eq_ascii_lowered_chars(v, on);
    lemma_eq_ascii_lowered_chars(v, tr);
    lemma_eq_ascii_lowered_chars(v, one);
    lemma_eq_ascii_lowered_chars(v, yes);
    if v.len() == 2 {
        assert(eq_ascii_lowered(v, on) <==> ((v[0] == 'o' || v[0] == 'O') && (v[1] == 'n' || v[1] == 'N'))) by {
            if (v[0] == 'o' || v[0] == 'O') && (v[1] == 'n' || v[1] == 'N') {
                assert forall|i: int| 0 <= i < v.len() implies (#[trigger] v[i] == on[i] || ('a' <= on[i] <= 'z' && v[i] as int + 32 == on[i] as int)) by {
                    if i == 0 {} else {}
                }
            }
            if eq_ascii_lowered(v, on) {
                assert(v[0] == on[0] || ('a' <= on[0] <= 'z' && v[0] as int + 32 == on[0] as int));
                assert(v[1] == on[1] || ('a' <= on[1] <= 'z' && v[1] as int + 32 == on[1] as int));
            }
        }
    }
    if v.len() == 4 {
        assert(eq_ascii_lowered(v, tr) <==> ((v[0] == 't' || v[0] == 'T') && (v[1] == 'r' || v[1] == 'R') && (
            v[2] == 'u' || v[2] == 'U') && (v[3] == 'e' || v[3] == 'E'))) by {
            if (v[0] == 't' || v[0] == 'T') && (v[1] == 'r' || v[1] == 'R') && (
            v[2] == 'u' || v[2] == 'U') && (v[3] == 'e' || v[3] == 'E') {
                assert forall|i: int| 0 <= i < v.len() implies (#[trigger] v[i] == tr[i] || ('a' <= tr[i] <= 'z' && v[i] as int + 32 == tr[i] as int)) by {
                    if i == 0 {} else if i == 1 {} else if i == 2 {} else {}
                }
            }
            if eq_ascii_lowered(v, tr) {
                assert(v[0] == tr[0] || ('a' <= tr[0] <= 'z' && v[0] as int + 32 == tr[0] as int));
                assert(v[1] == tr[1] || ('a' <= tr[1] <= 'z' && v[1] as int + 32 == tr[1] as int));
                assert(v[2] == tr[2] || ('a' <= tr[2] <= 'z' && v[2] as int + 32 == tr[2] as int));
                assert(v[3] == tr[3] || ('a' <= tr[3] <= 'z' && v[3] as int + 32 == tr[3] as int));
            }
        }
    }
    if v.len() == 1 {
        assert(eq_ascii_lowered(v, one) <==> v[0] == '1') by {
            if eq_ascii_lowered(v, one) {
                assert(v[0] == one[0] || ('a' <= one[0] <= 'z' && v[0] as int + 32 == one[0] as int));
            }
        }
    }
    if v.len() == 3 {
        assert(eq_ascii_lowered(v, yes) <==> ((v[0] == 'y' || v[0] == 'Y') && (v[1] == 'e' || v[1] == 'E') && (
            v[2] == 's' || v[2] == 'S'))) by {
            if (v[0] == 'y' || v[0] == 'Y') && (v[1] == 'e' || v[1] == 'E') && (
            v[2] == 's' || v[2] == 'S') {
                assert forall|i: int| 0 <= i < v.len() implies (#[trigger] v[i] == yes[i] || ('a' <= yes[i] <= 'z' && v[i] as int + 32 == yes[i] as int)) by {
                    if i == 0 {} else if i == 1 {} else {}
                }
            }
            if eq_ascii_lowered(v, yes) {
                assert(v[0] == yes[0] || ('a' <= yes[0] <= 'z' && v[0] as int + 32 == yes[0] as int));
                assert(v[1] == yes[1] || ('a' <= yes[1] <= 'z' && v[1] as int + 32 == yes[1] as int));
                assert(v[2] == yes[2] || ('a' <= yes[2] <= 'z' && v[2] as int + 32 == yes[2] as int));
            }
        }
    }
}

struct Entry {
    key: Vec<char>,
    value: String,
}

spec fn entry_view(e: Entry) -> (Seq<char>, Seq<char>) {
    (e.key@, e.value@)
}

spec fn entries_view(es: Seq<Entry>) -> Seq<(Seq<char>, Seq<char>)> {
    es.map_values(|e: Entry| entry_view(e))
}

/// Settings read from a configuration text.
pub struct Cfg {
    entries: Vec<Entry>,
}

impl View for Cfg {
    type V = Map<Seq<char>, Seq<char>>;

    closed spec fn view(&self) -> Map<Seq<char>, Seq<char>> {
        entries_map(entries_view(self.entries@))
    }
}

proof fn lemma_split_lines_nonempty(text: Seq<char>)
    ensures
        split_lines(text).len() >= 1,
    decreases text.len(),
{
    if text.len() > 0 {
        lemma_split_lines_nonempty(text.drop_last());
    }
}

/// Where the last entry with key `k` stands decides what the map holds for `k`.
proof fn lemma_entries_map_at(es: Seq<(Seq<char>, Seq<char>)>, k: Seq<char>, i: int)
    requires
        -1 <= i < es.len(),
        forall|j: int| i < j < es.len() ==> (#[trigger] es[j]).0 != k,
        i >= 0 ==> es[i].0 == k,
    ensures
        i >= 0 ==> entries_map(es).contains_key(k) && entries_map(es)[k] == es[i].1,
        i < 0 ==> !entries_map(es).contains_key(k),
    decreases es.len(),
{
    if es.len() > 0 {
        let p = es.drop_last();
        if i == es.len() - 1 {
        } else {
            assert(es.last() == es[es.len() - 1]);
            assert forall|j: int| i < j < p.len() implies (#[trigger] p[j]).0 != k by {
                assert(p[j] == es[j]);
            }
            lemma_entries_map_at(p, k, i);
            if i >= 0 {
                assert(p[i] == es[i]);
            }
        }
    }
}

proof fn lemma_split_lines_concat(a: Seq<char>, b: Seq<char>)
    ensures
        split_lines(a + seq!['\n'] + b) == split_lines(a) + split_lines(b),
    decreases b.len(),
{
    let ab = a + seq!['\n'] + b;
    if b.len() == 0 {
        assert(ab.drop_last() =~= a);
        assert(split_lines(ab) =~= split_lines(a) + split_lines(b));
    } else {
        let b0 = b.drop_last();
        assert(ab.drop_last() =~= a + seq!['\n'] + b0);
        lemma_split_lines_concat(a, b0);
        lemma_split_lines_nonempty(b0);
        let x = split_lines(a);
        let y = split_lines(b0);
        if b.last() == '\n' {
            assert(split_lines(ab) =~= x + y.push(Seq::<char>::empty()));
        } else {
            assert((x + y).last() == y.last());
            assert(split_lines(ab) =~= x + y.update(y.len() - 1, y.last().push(b.last())));
        }
    }
}

proof fn lemma_split_single_line(line: Seq<char>)
    requires
        !line.contains('\n'),
    ensures
        split_lines(line) == seq![line],
    decreases line.len(),
{
    if line.len() > 0 {
        let l0 = line.drop_last();
        assert(!l0.contains('\n')) by {
            if l0.contains('\n') {
                let j = choose|j: int| 0 <= j < l0.len() && l0[j] == '\n';
                assert(line[j] == '\n');
            }
        }
        lemma_split_single_line(l0);
        assert(line.last() != '\n') by {
            assert(line[line.len() - 1] == line.last());
        }
        assert(l0.push(line.last()) =~= line);
        assert(split_lines(line) =~= seq![line]);
    } else {
        assert(line =~= Seq::<char>::empty());
    }
}

proof fn lemma_line_entries_concat(x: Seq<Seq<char>>, y: Seq<Seq<char>>)
    ensures
        line_entries(x + y) == line_entries(x) + line_entries(y),
    decreases y.len(),
{
    if y.len() == 0 {
        assert(x + y =~= x);
        assert(line_entries(x) + line_entries(y) =~= line_entries(x));
    } else {
        assert((x + y).drop_last() =~= x + y.drop_last());
        assert((x + y).last() == y.last());
        lemma_line_entries_concat(x, y.drop_last());
        match line_entry(y.last()) {
            Some(e) => {
                assert(line_entries(x + y) =~= line_entries(x) + line_entries(y));
            },
            None => {},
        }
    }
}

proof fn lemma_entries_map_concat(e1: Seq<(Seq<char>, Seq<char>)>, e2: Seq<(Seq<char>, Seq<char>)>)
    ensures
        entries_map(e1 + e2) == entries_map(e1).union_prefer_right(entries_map(e2)),
    decreases e2.len(),
{
    if e2.len() == 0 {
        assert(e1 + e2 =~= e1);
        assert(entries_map(e1).union_prefer_right(entries_map(e2)) =~= entries_map(e1));
    } else {
        assert((e1 + e2).drop_last() =~= e1 + e2.drop_last());
        assert((e1 + e2).last() == e2.last());
        lemma_entries_map_concat(e1, e2.drop_last());
        assert(entries_map(e1 + e2) =~= entries_map(e1).union_prefer_right(entries_map(e2)));
    }
}

/// Two configuration texts joined by a line break hold the settings of the
/// first, overridden by those of the second.
pub proof fn lemma_config_concat(a: Seq<char>, b: Seq<char>)
    ensures
        config_map(a + seq!['\n'] + b) == config_map(a).union_prefer_right(config_map(b)),
{
    lemma_split_lines_concat(a, b);
    lemma_line_entries_concat(split_lines(a), split_lines(b));
    lemma_entries_map_concat(line_entries(split_lines(a)), line_entries(split_lines(b)));
}

/// `#` starts a comment: whatever follows it on a line changes nothing of
/// what the line sets.
pub proof fn lemma_comment_ignored(a: Seq<char>, b: Seq<char>)
    requires
        !a.contains('#'),
    ensures
        line_entry(a + seq!['#'] + b) == line_entry(a),
{
    let l = a + seq!['#'] + b;
    assert forall|j: int| 0 <= j < a.len() implies a[j] != '#' by {
        if a[j] == '#' {
            assert(a.contains('#'));
        }
    }
    assert forall|j: int| 0 <= j < a.len() implies l[j] != '#' by {
        assert(l[j] == a[j]);
    }
    assert(l[a.len() as int] == '#');
    lemma_index_of_char(l, '#', a.len() as int);
    lemma_index_of_char(a, '#', a.len() as int);
    assert(l.take(a.len() as int) =~= a);
}

/// A single line sets exactly the key and value of its entry, and nothing when
/// it is blank or a `#` comment, or holds no `=` before its comment.
pub proof fn lemma_config_single_line(line: Seq<char>)
    requires
        !line.contains('\n'),
    ensures
        config_map(line) == match line_entry(line) {
            Some(kv) => Map::<Seq<char>, Seq<char>>::empty().insert(kv.0, kv.1),
            None => Map::<Seq<char>, Seq<char>>::empty(),
        },
        trim(strip_comment(line)).len() == 0 ==> config_map(line) == Map::<
            Seq<char>,
            Seq<char>,
        >::empty(),
{
    lemma_split_single_line(line);
    let ls = split_lines(line);
    assert(ls.drop_last() =~= Seq::<Seq<char>>::empty());
    assert(ls.last() == line);
    assert(line_entries(ls.drop_last()) == Seq::<(Seq<char>, Seq<char>)>::empty());
    let es = line_entries(ls);
    match line_entry(line) {
        Some(kv) => {
            assert(es =~= seq![kv]);
            assert(es.drop_last() =~= Seq::<(Seq<char>, Seq<char>)>::empty());
            assert(entries_map(es.drop_last()) == Map::<Seq<char>, Seq<char>>::empty());
            assert(es.last() == kv);
            assert(config_map(line) =~= Map::<Seq<char>, Seq<char>>::empty().insert(kv.0, kv.1));
        },
        None => {
            assert(es =~= Seq::<(Seq<char>, Seq<char>)>::empty());
            assert(config_map(line) =~= Map::<Seq<char>, Seq<char>>::empty());
        },
    }
}

proof fn lemma_no_char(s: Seq<char>, c: char)
    requires
        !s.contains(c),
    ensures
        index_of_char(s, c) == None::<int>,
{
    assert forall|j: int| 0 <= j < s.len() implies s[j] != c by {
        if s[j] == c {
            assert(s.contains(c));
        }
    }
    lemma_index_of_char(s, c, s.len() as int);
}

proof fn lemma_trim_of_trimmed(s: Seq<char>)
    requires
        s.len() > 0 ==> !is_ws(s[0]) && !is_ws(s.last()),
    ensures
        trim(s) == s,
{
    assert(s.skip(0) =~= s);
    if s.len() > 0 {
        assert(leading_ws(s) == 0);
        assert(trailing_ws(s) == 0);
    }
    assert(s.take(s.len() as int) =~= s);
}

/// A line `key=value` sets exactly that key to exactly that value, character
/// for character, when the key holds no `=` and neither holds `#`, a line
/// break, or whitespace at either end.
pub proof fn lemma_line_sets_key_and_value(k: Seq<char>, v: Seq<char>)
    requires
        !k.contains('='),
        !k.contains('#'),
        !v.contains('#'),
        !k.contains('\n'),
        !v.contains('\n'),
        k.len() > 0 ==> !is_ws(k[0]) && !is_ws(k.last()),
        v.len() > 0 ==> !is_ws(v[0]) && !is_ws(v.last()),
    ensures
        line_entry(k + seq!['='] + v) == Some((k, v)),
        config_map(k + seq!['='] + v) == Map::<Seq<char>, Seq<char>>::empty().insert(k, v),
{
    let l = k + seq!['='] + v;
    assert(!l.contains('#')) by {
        if l.contains('#') {
            let j = choose|j: int| 0 <= j < l.len() && l[j] == '#';
            if j < k.len() {
                assert(k[j] == '#');
            } else if j > k.len() {
                assert(v[j - k.len() - 1] == '#');
            }
        }
    }
    assert(!l.contains('\n')) by {
        if l.contains('\n') {
            let j = choose|j: int| 0 <= j < l.len() && l[j] == '\n';
            if j < k.len() {
                assert(k[j] == '\n');
            } else if j > k.len() {
                assert(v[j - k.len() - 1] == '\n');
            }
        }
    }
    lemma_no_char(l, '#');
    assert(strip_comment(l) == l);
    assert(l[0] == if k.len() > 0 { k[0] } else { '=' });
    assert(l.last() == if v.len() > 0 { v.last() } else { '=' });
    lemma_trim_of_trimmed(l);
    assert forall|j: int| 0 <= j < k.len() implies l[j] != '=' by {
        assert(l[j] == k[j]);
        if k[j] == '=' {
            assert(k.contains('='));
        }
    }
    assert(l[k.len() as int] == '=');
    lemma_index_of_char(l, '=', k.len() as int);
    assert(l.take(k.len() as int) =~= k);
    assert(l.skip(k.len() + 1int) =~= v);
    lemma_trim_of_trimmed(k);
    lemma_trim_of_trimmed(v);
    lemma_config_single_line(l);
}

/// Whitespace before or after a line changes nothing of what it sets.
pub proof fn lemma_line_padding_ignored(line: Seq<char>, c: char)
    requires
        is_ws(c),
    ensures
        line_entry(seq![c] + line) == line_entry(line),
        line_entry(line + seq![c]) == line_entry(line),
{
    assert((9 <= c as int <= 13) || c as int == 32 || c as int == 0x85 || c as int == 0xa0
        || c as int == 0x1680 || (0x2000 <= c as int <= 0x200a) || c as int == 0x2028
        || c as int == 0x2029 || c as int == 0x202f || c as int == 0x205f || c as int
        == 0x3000);
    let front = seq![c] + line;
    let back = line + seq![c];
    assert(front[0] == c);
    assert(front.drop_first() =~= line);
    assert(strip_comment(front) =~= seq![c] + strip_comment(line)) by {
        match index_of_char(line, '#') {
            Some(i) => {
                lemma_index_of_some(line, '#', i);
                assert(index_of_char(front, '#') == Some(i + 1));
                assert(front.take(i + 1) =~= seq![c] + line.take(i));
            },
            None => {},
        }
    }
    lemma_trim_drops_white_space(strip_comment(line), c);
    match index_of_char(line, '#') {
        Some(i) => {
            lemma_index_of_some(line, '#', i);
            lemma_index_of_prefix(line, seq![c], i);
            assert(back.take(i) =~= line.take(i));
        },
        None => {
            lemma_index_of_none_push(line, c);
            assert(strip_comment(back) =~= strip_comment(line) + seq![c]);
        },
    }
}

proof fn lemma_index_of_some(s: Seq<char>, c: char, i: int)
    requires
        index_of_char(s, c) == Some(i),
    ensures
        0 <= i < s.len(),
        s[i] == c,
    decreases s.len(),
{
    if s.len() > 0 && s[0] != c {
        lemma_index_of_some(s.drop_first(), c, i - 1);
    }
}

proof fn lemma_index_of_prefix(s: Seq<char>, t: Seq<char>, i: int)
    requires
        index_of_char(s, '#') == Some(i),
    ensures
        index_of_char(s + t, '#') == Some(i),
    decreases s.len(),
{
    lemma_index_of_some(s, '#', i);
    assert((s + t)[0] == s[0]);
    if s.len() > 0 && s[0] != '#' {
        assert((s + t).drop_first() =~= s.drop_first() + t);
        lemma_index_of_prefix(s.drop_first(), t, i - 1);
    }
}

proof fn lemma_index_of_none_push(s: Seq<char>, c: char)
    requires
        index_of_char(s, '#') == None::<int>,
        c != '#',
    ensures
        index_of_char(s + seq![c], '#') == None::<int>,
    decreases s.len(),
{
    if s.len() > 0 {
        assert((s + seq![c])[0] == s[0]);
        assert((s + seq![c]).drop_first() =~= s.drop_first() + seq![c]);
        lemma_index_of_none_push(s.drop_first(), c);
    } else {
        assert((s + seq![c])[0] == c);
        assert((s + seq![c]).drop_first() =~= Seq::<char>::empty());
        assert(index_of_char(Seq::<char>::empty(), '#') == None::<int>);
    }
}

/// The key and value that `line` sets, if it sets any.
fn line_entry_of(line: &Vec<char>) -> (r: Option<(Vec<char>, Vec<char>)>)
    ensures
        match r {
            Some(kv) => line_entry(line@) == Some((kv.0@, kv.1@)),
            None => line_entry(line@) is None,
        },
{
    let content = match find_char(line, '#') {
        Some(i) => {
            let before = copy_range(line, 0, i);
            assert(before@ =~= line@.take(i as int));
            before
        },
        None => copy_range(line, 0, line.len()),
    };
    assert(content@ =~= strip_comment(line@));
    let t = trim_chars(&content);
    if t.len() == 0 {
        return None;
    }
    match find_char(&t, '=') {
        Some(i) => {
            let before = copy_range(&t, 0, i);
            let after = copy_range(&t, i + 1, t.len());
            assert(before@ =~= t@.take(i as int));
            assert(after@ =~= t@.skip(i + 1));
            Some((trim_chars(&before), trim_chars(&after)))
        },
        None => None,
    }
}

/// Adds what `line` sets, if anything, to the end of `entries`.
fn push_line_entry(entries: &mut Vec<Entry>, line: &Vec<char>)
    ensures
        entries_view(final(entries)@) == match line_entry(line@) {
            Some(e) => entries_view(old(entries)@).push(e),
            None => entries_view(old(entries)@),
        },
{
    match line_entry_of(line) {
        Some(kv) => {
            let (key, value_chars) = kv;
            let value = string_of(&value_chars);
            entries.push(Entry { key, value });
            assert(entries_view(final(entries)@) =~= entries_view(old(entries)@).push(
                (key@, value@),
            ));
        },
        None => {},
    }
}

/// Whether `a` and `b` hold the same characters.
fn chars_eq(a: &Vec<char>, b: &Vec<char>) -> (r: bool)
    ensures
        r == (a@ == b@),
{
    if a.len() != b.len() {
        return false;
    }
    let n = a.len();
    for i in 0..n
        invariant
            n == a.len(),
            n == b.len(),
            forall|j: int| 0 <= j < i ==> a@[j] == b@[j],
    {
        if a[i] != b[i] {
            return false;
        }
    }
    assert(a@ =~= b@);
    true
}

impl Cfg {
    /// Reads the settings of a configuration text. A later line with the same
    /// key replaces the value of an earlier one.
    pub fn parse(text: &str) -> (r: Cfg)
        ensures
            r@ == config_map(text@),
    {
        let t = chars_of(text);
        let n = t.len();
        let mut entries: Vec<Entry> = Vec::new();
        let mut cur: Vec<char> = Vec::new();
        assert(t@.take(0) =~= Seq::<char>::empty());
        for i in 0..n
            invariant
                n == t.len(),
                split_lines(t@.take(i as int)).last() == cur@,
                line_entries(split_lines(t@.take(i as int)).drop_last()) == entries_view(entries@),
        {
            let c = t[i];
            let ghost p = split_lines(t@.take(i as int));
            proof {
                lemma_split_lines_nonempty(t@.take(i as int));
                assert(t@.take(i + 1).drop_last() =~= t@.take(i as int));
                assert(t@.take(i + 1).last() == c);
            }
            if c == '\n' {
                push_line_entry(&mut entries, &cur);
                cur = Vec::new();
                proof {
                    let q = split_lines(t@.take(i + 1));
                    assert(q == p.push(Seq::<char>::empty()));
                    assert(q.drop_last() =~= p);
                }
            } else {
                cur.push(c);
                proof {
                    let q = split_lines(t@.take(i + 1));
                    assert(q == p.update(p.len() - 1, p.last().push(c)));
                    assert(q.drop_last() =~= p.drop_last());
                }
            }
        }
        proof {
            assert(t@.take(n as int) =~= t@);
            lemma_split_lines_nonempty(t@);
        }
        push_line_entry(&mut entries, &cur);
        Cfg { entries }
    }

    /// The name of the configuration file of the mod `mod_id`: `<mod_id>.cfg`.
    pub fn file_name(mod_id: &str) -> (r: String)
        ensures
            r@ == mod_id@ + ".cfg"@,
    {
        let mut r = String::new();
        r.append(mod_id);
        r.append(".cfg");
        r
    }

    /// The index of the last entry whose key is `key`.
    fn find(&self, key: &Vec<char>) -> (r: Option<usize>)
        ensures
            match r {
                Some(i) => self@.contains_key(key@) && i < self.entries.len()
                    && self@[key@] == self.entries@[i as int].value@,
                None => !self@.contains_key(key@),
            },
    {
        let ghost es = entries_view(self.entries@);
        let mut i: usize = self.entries.len();
        while i > 0
            invariant
                i <= self.entries.len(),
                es == entries_view(self.entries@),
                forall|j: int| i <= j < es.len() ==> (#[trigger] es[j]).0 != key@,
            decreases i,
        {
            if chars_eq(&self.entries[i - 1].key, key) {
                proof {
                    lemma_entries_map_at(es, key@, i - 1);
                }
                return Some(i - 1);
            }
            i = i - 1;
        }
        proof {
            lemma_entries_map_at(es, key@, -1);
        }
        None
    }

    /// The value set for `key`, if any.
    pub fn string(&self, key: &str) -> (r: Option<&str>)
        ensures
            match r {
                Some(v) => self@.contains_key(key@) && v@ == self@[key@],
                None => !self@.contains_key(key@),
            },
    {
        let k = chars_of(key);
        match self.find(&k) {
            Some(i) => Some(self.entries[i].value.as_str()),
            None => None,
        }
    }

    /// Whether `key` is switched on: its value is `on`, `true`, `1` or `yes`
    /// in any ASCII case. Any other value reads as off; `default` when the key
    /// is not set.
    pub fn bool(&self, key: &str, default: bool) -> (r: bool)
        ensures
            r == if self@.contains_key(key@) {
                is_on_word(self@[key@])
            } else {
                default
            },
    {
        let k = chars_of(key);
        match self.find(&k) {
            Some(i) => {
                let v = chars_of(self.entries[i].value.as_str());
                let on = vec!['o', 'n'];
                let yes_true = vec!['t', 'r', 'u', 'e'];
                let one = vec!['1'];
                let yes = vec!['y', 'e', 's'];
                assert(on@ =~= seq!['o', 'n']);
                assert(yes_true@ =~= seq!['t', 'r', 'u', 'e']);
                assert(one@ =~= seq!['1']);
                assert(yes@ =~= seq!['y', 'e', 's']);
                eq_ascii_lowered_chars(&v, &on) || eq_ascii_lowered_chars(&v, &yes_true)
                    || eq_ascii_lowered_chars(&v, &one) || eq_ascii_lowered_chars(&v, &yes)
            },
            None => default,
        }
    }

    /// The value of `key` read as a `usize` (as `str::parse` reads it), or
    /// `default` when the key is not set or its value is no such number.
    pub fn usize(&self, key: &str, default: usize) -> (r: usize)
        ensures
            r == if self@.contains_key(key@) {
                match parse_usize_spec(self@[key@]) {
                    Some(n) => n,
                    None => default,
                }
            } else {
                default
            },
    {
        let k = chars_of(key);
        match self.find(&k) {
            Some(i) => {
                let v = chars_of(self.entries[i].value.as_str());
                match parse_usize(&v) {
                    Some(n) => n,
                    None => default,
                }
            },
            None => default,
        }
    }
}

} // verus!
