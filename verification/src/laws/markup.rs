//! The text of an HTML fragment.

use vstd::prelude::*;

use crate::laws::texts::{blank, lemma_trim_takes_ends};
use crate::sources::wikimedia::{collapsed, decoded, html_text, tag_open, untagged};
use crate::text::{free_of, is_space, occurs_at, replace_all, starts_with};

verus! {

/// Tags are taken out, from their `<` to their `>`; the text round them stays.
pub proof fn lemma_tags_taken_out(a: Seq<char>, tag: Seq<char>, b: Seq<char>)
    requires
        free_of(a, '<') && free_of(a, '>'),
        free_of(tag, '<') && free_of(tag, '>'),
    ensures
        untagged(a) == a,
        untagged(a + seq!['<'] + tag + seq!['>'] + b) == a + untagged(b),
{
    lemma_no_tags(a);
    let head = a + seq!['<'] + tag + seq!['>'];
    lemma_in_tag(a, tag);
    let open = a + seq!['<'] + tag;
    assert(head.drop_last() =~= open);
    assert(head.last() == '>');
    assert(untagged(head) == a);
    assert(!tag_open(head));
    lemma_behind_tag(head, b);
}

proof fn lemma_no_tags(a: Seq<char>)
    requires
        free_of(a, '<') && free_of(a, '>'),
    ensures
        untagged(a) == a,
        !tag_open(a),
    decreases a.len(),
{
    if a.len() > 0 {
        let t = a.drop_last();
        assert forall|i: int| 0 <= i < t.len() implies #[trigger] t[i] != '<' && t[i] != '>' by {
            assert(a[i] == t[i]);
        }
        lemma_no_tags(t);
        assert(t.push(a.last()) =~= a);
    }
}

proof fn lemma_in_tag(a: Seq<char>, tag: Seq<char>)
    requires
        free_of(a, '<') && free_of(a, '>'),
        free_of(tag, '<') && free_of(tag, '>'),
    ensures
        tag_open(a + seq!['<'] + tag),
        untagged(a + seq!['<'] + tag) == a,
    decreases tag.len(),
{
    let s = a + seq!['<'] + tag;
    if tag.len() == 0 {
        assert(s.last() == '<');
        assert(s.drop_last() =~= a);
        lemma_no_tags(a);
    } else {
        let t = tag.drop_last();
        assert forall|i: int| 0 <= i < t.len() implies #[trigger] t[i] != '<' && t[i] != '>' by {
            assert(tag[i] == t[i]);
        }
        lemma_in_tag(a, t);
        assert(s.drop_last() =~= a + seq!['<'] + t);
        assert(s.last() == tag.last());
    }
}

proof fn lemma_behind_tag(head: Seq<char>, b: Seq<char>)
    requires
        head.len() > 0,
        head.last() == '>',
    ensures
        tag_open(head + b) == tag_open(b),
        untagged(head + b) == untagged(head) + untagged(b),
    decreases b.len(),
{
    let s = head + b;
    if b.len() == 0 {
        assert(s =~= head);
        assert(untagged(head) + untagged(b) =~= untagged(head));
    } else {
        lemma_behind_tag(head, b.drop_last());
        assert(s.drop_last() =~= head + b.drop_last());
        assert(s.last() == b.last());
        assert(untagged(s) =~= untagged(head) + untagged(b));
    }
}

/// A run of whitespace becomes one blank; other characters stay.
pub proof fn lemma_runs_become_blanks(a: Seq<char>, gap: Seq<char>, b: Seq<char>)
    requires
        forall|i: int| 0 <= i < a.len() ==> !is_space(#[trigger] a[i]),
        forall|i: int| 0 <= i < b.len() ==> !is_space(#[trigger] b[i]),
        blank(gap),
        gap.len() > 0,
    ensures
        collapsed(a) == a,
        collapsed(a + gap + b) == a + seq![' '] + b,
{
    lemma_nothing_collapsed(Seq::empty(), a);
    assert(Seq::<char>::empty() + a =~= a);
    assert(collapsed(Seq::<char>::empty()) + a =~= a);
    lemma_gap_collapsed(a, gap);
    lemma_nothing_collapsed(a + gap, b);
}

proof fn lemma_nothing_collapsed(s: Seq<char>, a: Seq<char>)
    requires
        forall|i: int| 0 <= i < a.len() ==> !is_space(#[trigger] a[i]),
    ensures
        collapsed(s + a) == collapsed(s) + a,
    decreases a.len(),
{
    if a.len() == 0 {
        assert(s + a =~= s);
        assert(collapsed(s) + a =~= collapsed(s));
    } else {
        let t = a.drop_last();
        assert forall|i: int| 0 <= i < t.len() implies !is_space(#[trigger] t[i]) by {
            assert(a[i] == t[i]);
        }
        lemma_nothing_collapsed(s, t);
        assert((s + a).drop_last() =~= s + t);
        assert((s + a).last() == a.last());
        assert(collapsed(s + a) =~= collapsed(s) + a);
    }
}

proof fn lemma_gap_collapsed(a: Seq<char>, gap: Seq<char>)
    requires
        forall|i: int| 0 <= i < a.len() ==> !is_space(#[trigger] a[i]),
        blank(gap),
        gap.len() > 0,
    ensures
        collapsed(a + gap) == a + seq![' '],
    decreases gap.len(),
{
    let s = a + gap;
    assert(s.last() == gap.last());
    assert(s.drop_last() =~= a + gap.drop_last());
    if gap.len() == 1 {
        assert(a + gap.drop_last() =~= a);
        lemma_nothing_collapsed(Seq::empty(), a);
        assert(Seq::<char>::empty() + a =~= a);
        assert(collapsed(Seq::<char>::empty()) + a =~= a);
        if s.len() > 1 {
            assert(s[s.len() - 2] == a.last());
        }
        assert(collapsed(s) =~= a + seq![' ']);
    } else {
        let t = gap.drop_last();
        assert(blank(t)) by {
            assert forall|i: int| 0 <= i < t.len() implies is_space(#[trigger] t[i]) by {
                assert(gap[i] == t[i]);
            }
        }
        lemma_gap_collapsed(a, t);
        assert(s[s.len() - 2] == gap[gap.len() - 2]);
    }
}

/// Where a text does not occur, nothing is replaced.
proof fn lemma_nothing_replaced(s: Seq<char>, from: Seq<char>, to: Seq<char>)
    requires
        from.len() > 0,
        forall|i: int| !#[trigger] occurs_at(s, from, i),
    ensures
        replace_all(s, from, to) == s,
    decreases s.len(),
{
    if s.len() >= from.len() {
        assert(!occurs_at(s, from, 0));
        let t = s.skip(1);
        assert forall|i: int| !#[trigger] occurs_at(t, from, i) by {
            if occurs_at(t, from, i) {
                assert(s.subrange(i + 1, i + 1 + from.len()) =~= t.subrange(i, i + from.len()));
                assert(occurs_at(s, from, i + 1));
            }
        }
        lemma_nothing_replaced(t, from, to);
        assert(seq![s[0]] + t =~= s);
    }
}

proof fn lemma_one_replaced(a: Seq<char>, from: Seq<char>, b: Seq<char>, to: Seq<char>)
    requires
        from.len() > 0,
        free_of(a, from[0]),
        free_of(b, from[0]),
    ensures
        replace_all(a + from + b, from, to) == a + to + b,
    decreases a.len(),
{
    let s = a + from + b;
    if a.len() == 0 {
        assert(s.subrange(0, from.len() as int) =~= from);
        assert(s.skip(from.len() as int) =~= b);
        assert forall|i: int| !#[trigger] occurs_at(b, from, i) by {
            if occurs_at(b, from, i) {
                assert(b.subrange(i, i + from.len())[0] == b[i]);
            }
        }
        lemma_nothing_replaced(b, from, to);
        assert(to + b =~= a + to + b);
    } else {
        assert(s[0] == a[0]);
        if starts_with(s, from) {
            assert(s.subrange(0, from.len() as int)[0] == s[0]);
        }
        let t = a.skip(1);
        assert forall|i: int| 0 <= i < t.len() implies #[trigger] t[i] != from[0] by {
            assert(t[i] == a[i + 1]);
        }
        lemma_one_replaced(t, from, b, to);
        assert(s.skip(1) =~= t + from + b);
        assert(seq![a[0]] + (t + to + b) =~= a + to + b);
    }
}

/// Two names of characters that differ behind the sign do not stand in for each
/// other.
proof fn lemma_other_entity(a: Seq<char>, e: Seq<char>, b: Seq<char>, from: Seq<char>, to: Seq<char>)
    requires
        from.len() > 1,
        e.len() > 1,
        from[0] == '&',
        e[0] == '&',
        free_of(e.skip(1), '&'),
        free_of(a, '&'),
        free_of(b, '&'),
        exists|k: int| 0 <= k < from.len() && k < e.len() && from[k] != #[trigger] e[k],
    ensures
        replace_all(a + e + b, from, to) == a + e + b,
{
    let s = a + e + b;
    assert forall|i: int| !#[trigger] occurs_at(s, from, i) by {
        if occurs_at(s, from, i) {
            let part = s.subrange(i, i + from.len());
            assert(part[0] == s[i]);
            if i < a.len() {
                assert(s[i] == a[i]);
            } else if i > a.len() && i < a.len() + e.len() {
                assert(s[i] == e[i - a.len()]);
                assert(e.skip(1)[i - a.len() - 1] == e[i - a.len()]);
            } else if i >= a.len() + e.len() {
                assert(s[i] == b[i - a.len() - e.len()]);
            } else {
                let k = choose|k: int|
                    0 <= k < from.len() && k < e.len() && from[k] != #[trigger] e[k];
                assert(part[k] == s[i + k]);
                assert(s[i + k] == e[k]);
            }
        }
    }
    lemma_nothing_replaced(s, from, to);
}

proof fn lemma_plain_kept(s: Seq<char>, from: Seq<char>, to: Seq<char>)
    requires
        from.len() > 0,
        from[0] == '&',
        free_of(s, '&'),
    ensures
        replace_all(s, from, to) == s,
{
    assert forall|i: int| !#[trigger] occurs_at(s, from, i) by {
        if occurs_at(s, from, i) {
            assert(s.subrange(i, i + from.len())[0] == s[i]);
        }
    }
    lemma_nothing_replaced(s, from, to);
}

proof fn lemma_free_three(a: Seq<char>, c: Seq<char>, b: Seq<char>)
    requires
        free_of(a, '&'),
        free_of(b, '&'),
        free_of(c, '&'),
    ensures
        free_of(a + c + b, '&'),
{
    let s = a + c + b;
    assert forall|i: int| 0 <= i < s.len() implies #[trigger] s[i] != '&' by {
        if i < a.len() {
            assert(s[i] == a[i]);
        } else if i < a.len() + c.len() {
            assert(s[i] == c[i - a.len()]);
        } else {
            assert(s[i] == b[i - a.len() - c.len()]);
        }
    }
}

/// Text without the sign `&` is decoded as it stands.
pub proof fn lemma_plain_text_kept(s: Seq<char>)
    requires
        free_of(s, '&'),
    ensures
        decoded(s) == s,
{
    lemma_entities();
    lemma_plain_kept(s, "&amp;"@, "&"@);
    lemma_plain_kept(s, "&lt;"@, "<"@);
    lemma_plain_kept(s, "&gt;"@, ">"@);
    lemma_plain_kept(s, "&quot;"@, "\""@);
    lemma_plain_kept(s, "&#39;"@, "'"@);
    lemma_plain_kept(s, "&nbsp;"@, " "@);
}

proof fn lemma_entities()
    ensures
        "&amp;"@.len() == 5 && "&amp;"@[0] == '&' && "&amp;"@[1] == 'a',
        "&lt;"@.len() == 4 && "&lt;"@[0] == '&' && "&lt;"@[1] == 'l',
        "&gt;"@.len() == 4 && "&gt;"@[0] == '&' && "&gt;"@[1] == 'g',
        "&quot;"@.len() == 6 && "&quot;"@[0] == '&' && "&quot;"@[1] == 'q',
        "&#39;"@.len() == 5 && "&#39;"@[0] == '&' && "&#39;"@[1] == '#',
        "&nbsp;"@.len() == 6 && "&nbsp;"@[0] == '&' && "&nbsp;"@[1] == 'n',
        free_of("&amp;"@.skip(1), '&'),
        free_of("&lt;"@.skip(1), '&'),
        free_of("&gt;"@.skip(1), '&'),
        free_of("&quot;"@.skip(1), '&'),
        free_of("&#39;"@.skip(1), '&'),
        free_of("&nbsp;"@.skip(1), '&'),
        free_of("<"@, '&') && free_of(">"@, '&') && free_of("\""@, '&') && free_of("'"@, '&')
            && free_of(" "@, '&'),
        "<"@ == seq!['<'] && ">"@ == seq!['>'] && "\""@ == seq!['"'] && "'"@ == seq!['\'']
            && " "@ == seq![' '] && "&"@ == seq!['&'],
{
    reveal_strlit("&amp;");
    reveal_strlit("&lt;");
    reveal_strlit("&gt;");
    reveal_strlit("&quot;");
    reveal_strlit("&#39;");
    reveal_strlit("&nbsp;");
    reveal_strlit("<");
    reveal_strlit(">");
    reveal_strlit("\"");
    reveal_strlit("'");
    reveal_strlit(" ");
    reveal_strlit("&");
    assert("<"@ =~= seq!['<'] && ">"@ =~= seq!['>'] && "\""@ =~= seq!['"'] && "'"@ =~= seq!['\'']
        && " "@ =~= seq![' '] && "&"@ =~= seq!['&']);
}

/// The names of characters are decoded: `&lt;` and `&gt;` are angle brackets,
/// `&quot;` and `&#39;` quotation marks, `&nbsp;` a blank.
pub proof fn lemma_names_decoded(a: Seq<char>, b: Seq<char>)
    requires
        free_of(a, '&'),
        free_of(b, '&'),
    ensures
        decoded(a + "&lt;"@ + b) == a + seq!['<'] + b,
        decoded(a + "&gt;"@ + b) == a + seq!['>'] + b,
        decoded(a + "&quot;"@ + b) == a + seq!['"'] + b,
        decoded(a + "&#39;"@ + b) == a + seq!['\''] + b,
        decoded(a + "&nbsp;"@ + b) == a + seq![' '] + b,
{
    lemma_entities();
    lemma_name_decoded(a, b, 0);
    lemma_name_decoded(a, b, 1);
    lemma_name_decoded(a, b, 2);
    lemma_name_decoded(a, b, 3);
    lemma_name_decoded(a, b, 4);
}

/// The names after `&amp;`, in the order in which they are decoded.
spec fn name_at(k: int) -> (Seq<char>, Seq<char>) {
    if k == 0 {
        ("&lt;"@, "<"@)
    } else if k == 1 {
        ("&gt;"@, ">"@)
    } else if k == 2 {
        ("&quot;"@, "\""@)
    } else if k == 3 {
        ("&#39;"@, "'"@)
    } else {
        ("&nbsp;"@, " "@)
    }
}

proof fn lemma_name_decoded(a: Seq<char>, b: Seq<char>, k: int)
    requires
        free_of(a, '&'),
        free_of(b, '&'),
        0 <= k <= 4,
    ensures
        decoded(a + name_at(k).0 + b) == a + name_at(k).1 + b,
{
    lemma_entities();
    let e = name_at(k).0;
    let s = a + e + b;
    let done = a + name_at(k).1 + b;
    lemma_free_three(a, name_at(k).1, b);
    assert("&amp;"@[1] != e[1]);
    lemma_other_entity(a, e, b, "&amp;"@, "&"@);
    lemma_name_step(a, b, k, 0);
    lemma_name_step(a, b, k, 1);
    lemma_name_step(a, b, k, 2);
    lemma_name_step(a, b, k, 3);
    lemma_name_step(a, b, k, 4);
}

proof fn lemma_name_step(a: Seq<char>, b: Seq<char>, k: int, j: int)
    requires
        free_of(a, '&'),
        free_of(b, '&'),
        0 <= k <= 4,
        0 <= j <= 4,
    ensures
        j != k ==> replace_all(a + name_at(k).0 + b, name_at(j).0, name_at(j).1) == a + name_at(k).0
            + b,
        j == k ==> replace_all(a + name_at(k).0 + b, name_at(j).0, name_at(j).1) == a + name_at(k).1
            + b,
        replace_all(a + name_at(k).1 + b, name_at(j).0, name_at(j).1) == a + name_at(k).1 + b,
{
    lemma_entities();
    let e = name_at(k).0;
    let from = name_at(j).0;
    lemma_free_three(a, name_at(k).1, b);
    lemma_plain_kept(a + name_at(k).1 + b, from, name_at(j).1);
    if j != k {
        assert(from[1] != e[1]);
        lemma_other_entity(a, e, b, from, name_at(j).1);
    } else {
        lemma_one_replaced(a, e, b, name_at(k).1);
    }
}

/// `&amp;` is decoded to the sign itself, where what follows makes no other name
/// of it.
pub proof fn lemma_ampersand_decoded(a: Seq<char>, b: Seq<char>)
    requires
        free_of(a, '&'),
        free_of(b, '&'),
        b.len() > 0 ==> b[0] != 'l' && b[0] != 'g' && b[0] != 'q' && b[0] != '#' && b[0] != 'n',
    ensures
        decoded(a + "&amp;"@ + b) == a + seq!['&'] + b,
{
    lemma_entities();
    lemma_one_replaced(a, "&amp;"@, b, "&"@);
    lemma_sign_kept(a, b, 0);
    lemma_sign_kept(a, b, 1);
    lemma_sign_kept(a, b, 2);
    lemma_sign_kept(a, b, 3);
    lemma_sign_kept(a, b, 4);
}

proof fn lemma_sign_kept(a: Seq<char>, b: Seq<char>, j: int)
    requires
        free_of(a, '&'),
        free_of(b, '&'),
        b.len() > 0 ==> b[0] != 'l' && b[0] != 'g' && b[0] != 'q' && b[0] != '#' && b[0] != 'n',
        0 <= j <= 4,
    ensures
        replace_all(a + seq!['&'] + b, name_at(j).0, name_at(j).1) == a + seq!['&'] + b,
{
    lemma_entities();
    let s = a + seq!['&'] + b;
    let from = name_at(j).0;
    assert forall|i: int| !#[trigger] occurs_at(s, from, i) by {
        if occurs_at(s, from, i) {
            let part = s.subrange(i, i + from.len());
            assert(part[0] == s[i]);
            assert(part[1] == s[i + 1]);
            if i < a.len() {
                assert(s[i] == a[i]);
            } else if i > a.len() {
                assert(s[i] == b[i - a.len() - 1]);
            } else {
                assert(s[i + 1] == b[0]);
            }
        }
    }
    lemma_nothing_replaced(s, from, name_at(j).1);
}

/// The text of a fragment is stripped of its tags, decoded and tidied: plain
/// words in a tag come out as they are.
pub proof fn lemma_words_in_a_tag(open: Seq<char>, words: Seq<char>, close: Seq<char>)
    requires
        free_of(open, '<') && free_of(open, '>'),
        free_of(close, '<') && free_of(close, '>'),
        free_of(words, '<') && free_of(words, '>') && free_of(words, '&'),
        forall|i: int| 0 <= i < words.len() ==> !is_space(#[trigger] words[i]),
    ensures
        html_text(
            seq!['<'] + open + seq!['>'] + words + seq!['<'] + close + seq!['>'],
        ) == words,
{
    let e = Seq::<char>::empty();
    let tail = words + seq!['<'] + close + seq!['>'];
    let s = seq!['<'] + open + seq!['>'] + words + seq!['<'] + close + seq!['>'];
    assert(s =~= e + seq!['<'] + open + seq!['>'] + tail);
    lemma_tags_taken_out(e, open, tail);
    assert(tail =~= words + seq!['<'] + close + seq!['>'] + e);
    lemma_tags_taken_out(words, close, e);
    assert(untagged(e) =~= e);
    assert(words + e =~= words);
    assert(e + words =~= words);
    assert(untagged(s) == words);
    lemma_plain_text_kept(words);
    lemma_nothing_collapsed(e, words);
    assert(collapsed(e) + words =~= words);
    lemma_trim_takes_ends(e, words, e);
    assert(e + words + e =~= words);
}

} // verus!
