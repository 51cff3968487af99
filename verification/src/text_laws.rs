//! What the functions on texts do, said of the texts themselves.
use vstd::prelude::*;

use crate::text;

verus! {

// ── trimming ─────────────────────────────────────────────────────────────────

/// Whether a text is white space throughout.
pub open spec fn blank(s: Seq<char>) -> bool {
    forall|i: int| 0 <= i < s.len() ==> text::white_space(#[trigger] s[i])
}

/// Whether a text neither begins nor ends with white space.
pub open spec fn tight(s: Seq<char>) -> bool {
    s.len() > 0 ==> !text::white_space(s[0]) && !text::white_space(s[s.len() - 1])
}

proof fn lemma_trim_start(pre: Seq<char>, x: Seq<char>)
    requires
        blank(pre),
    ensures
        text::trim_start(pre + x) == text::trim_start(x),
    decreases pre.len(),
{
    if pre.len() == 0 {
        assert(pre + x =~= x);
    } else {
        let t = pre.drop_first();
        assert forall|i: int| 0 <= i < t.len() implies text::white_space(#[trigger] t[i]) by {
            assert(t[i] == pre[i + 1]);
        }
        lemma_trim_start(t, x);
        assert((pre + x)[0] == pre[0]);
        assert((pre + x).drop_first() =~= t + x);
    }
}

proof fn lemma_trim_end(x: Seq<char>, post: Seq<char>)
    requires
        blank(post),
    ensures
        text::trim_end(x + post) == text::trim_end(x),
    decreases post.len(),
{
    if post.len() == 0 {
        assert(x + post =~= x);
    } else {
        let t = post.drop_last();
        assert forall|i: int| 0 <= i < t.len() implies text::white_space(#[trigger] t[i]) by {
            assert(t[i] == post[i]);
        }
        lemma_trim_end(x, t);
        assert((x + post).last() == post[post.len() - 1]);
        assert((x + post).drop_last() =~= x + t);
    }
}

/// Trimming takes off the white space at both ends, all of it and nothing else.
pub proof fn trimming_takes_the_ends_off(pre: Seq<char>, s: Seq<char>, post: Seq<char>)
    requires
        blank(pre),
        blank(post),
        tight(s),
    ensures
        text::trimmed(pre + s + post) == s,
{
    if s.len() == 0 {
        assert(pre + s + post =~= (pre + post) + Seq::<char>::empty());
        assert forall|i: int| 0 <= i < (pre + post).len() implies text::white_space(
            #[trigger] (pre + post)[i],
        ) by {
            if i < pre.len() {
                assert((pre + post)[i] == pre[i]);
            } else {
                assert((pre + post)[i] == post[i - pre.len()]);
            }
        }
        lemma_trim_start(pre + post, Seq::<char>::empty());
        assert(s =~= Seq::<char>::empty());
    } else {
        assert(pre + s + post =~= pre + (s + post));
        lemma_trim_start(pre, s + post);
        assert((s + post)[0] == s[0]);
        lemma_trim_end(s, post);
        assert(s.last() == s[s.len() - 1]);
    }
}

/// Every text is what trimming leaves of it with white space around, so that
/// there is no text of which nothing is said.
pub proof fn every_text_has_a_middle(s: Seq<char>) -> (ends: (Seq<char>, Seq<char>))
    ensures
        blank(ends.0),
        blank(ends.1),
        tight(text::trimmed(s)),
        s == ends.0 + text::trimmed(s) + ends.1,
{
    let pre = lemma_start(s);
    let t = text::trim_start(s);
    let post = lemma_end(t);
    let m = text::trim_end(t);
    assert(s =~= pre + m + post);
    if m.len() > 0 {
        assert(t[0] == m[0]);
    }
    (pre, post)
}

proof fn lemma_start(s: Seq<char>) -> (pre: Seq<char>)
    ensures
        blank(pre),
        s == pre + text::trim_start(s),
        text::trim_start(s).len() > 0 ==> !text::white_space(text::trim_start(s)[0]),
    decreases s.len(),
{
    if s.len() > 0 && text::white_space(s[0]) {
        let p = lemma_start(s.drop_first());
        let pre = seq![s[0]] + p;
        assert forall|i: int| 0 <= i < pre.len() implies text::white_space(#[trigger] pre[i]) by {
            if i > 0 {
                assert(pre[i] == p[i - 1]);
            }
        }
        assert(s =~= seq![s[0]] + s.drop_first());
        assert(s =~= pre + text::trim_start(s));
        pre
    } else {
        let none = Seq::<char>::empty();
        assert(s =~= none + s);
        none
    }
}

proof fn lemma_end(s: Seq<char>) -> (post: Seq<char>)
    ensures
        blank(post),
        s == text::trim_end(s) + post,
        text::trim_end(s).len() > 0 ==> !text::white_space(
            text::trim_end(s)[text::trim_end(s).len() - 1],
        ),
    decreases s.len(),
{
    if s.len() > 0 && text::white_space(s.last()) {
        let p = lemma_end(s.drop_last());
        let post = p.push(s.last());
        assert forall|i: int| 0 <= i < post.len() implies text::white_space(
            #[trigger] post[i],
        ) by {
            if i < p.len() {
                assert(post[i] == p[i]);
            }
        }
        assert(s =~= s.drop_last().push(s.last()));
        assert(s =~= text::trim_end(s) + post);
        post
    } else {
        let none = Seq::<char>::empty();
        assert(s =~= s + none);
        none
    }
}

// ── comparing ────────────────────────────────────────────────────────────────

/// Whether two characters are the same but for the case of an ASCII letter.
pub open spec fn same_letter(a: char, b: char) -> bool {
    ||| a == b
    ||| 'A' <= a <= 'Z' && b as int == a as int + 32
    ||| 'A' <= b <= 'Z' && a as int == b as int + 32
}

/// Texts agree up to case just if they do so character by character.
pub proof fn case_is_all_that_is_ignored(a: Seq<char>, b: Seq<char>)
    ensures
        text::same_ignoring_case(a, b) <==> a.len() == b.len() && forall|i: int|
            0 <= i < a.len() ==> same_letter(#[trigger] a[i], b[i]),
{
    assert forall|x: char, y: char|
        text::ascii_lower(x) == text::ascii_lower(y) <==> #[trigger] same_letter(x, y) by {
        lemma_lower(x);
        lemma_lower(y);
    }
    if text::same_ignoring_case(a, b) {
        assert forall|i: int| 0 <= i < a.len() implies same_letter(#[trigger] a[i], b[i]) by {
            assert(text::ascii_lower(a[i]) == text::ascii_lower(b[i]));
        }
    }
    if a.len() == b.len() && forall|i: int|
        0 <= i < a.len() ==> same_letter(#[trigger] a[i], b[i]) {
        assert forall|i: int| 0 <= i < a.len() implies text::ascii_lower(#[trigger] a[i])
            == text::ascii_lower(b[i]) by {
            assert(same_letter(a[i], b[i]));
        }
    }
}

proof fn lemma_lower(c: char)
    ensures
        text::ascii_lower(c) as int == (if 'A' <= c <= 'Z' {
            c as int + 32
        } else {
            c as int
        }),
{
}

/// What follows a prefix is what has to be put behind it to have the text
/// again; a text that cannot be had that way does not begin with the prefix.
pub proof fn prefixes_are_taken_off(s: Seq<char>, prefix: Seq<char>, rest: Seq<char>)
    ensures
        text::after_prefix(s, prefix) == Some(rest) <==> s == prefix + rest,
{
    if s == prefix + rest {
        assert(prefix =~= s.subrange(0, prefix.len() as int));
        assert(s.skip(prefix.len() as int) =~= rest);
    }
    if text::after_prefix(s, prefix) == Some(rest) {
        assert(s =~= prefix + rest);
    }
}

// ── joining and splitting ────────────────────────────────────────────────────

/// Joined texts stand one behind the other with the separator in between.
pub proof fn joining_puts_the_separator_between(
    parts: Seq<Seq<char>>,
    x: Seq<char>,
    sep: Seq<char>,
)
    ensures
        text::joined(parts.push(x), sep) == (if parts.len() == 0 {
            x
        } else {
            text::joined(parts, sep) + sep + x
        }),
{
    assert(parts.push(x).drop_last() =~= parts);
}

/// Whether a character is nowhere in a text.
pub open spec fn lacks(s: Seq<char>, c: char) -> bool {
    forall|i: int| 0 <= i < s.len() ==> #[trigger] s[i] != c
}

proof fn lemma_pieces_extend(s: Seq<char>, t: Seq<char>, sep: char)
    requires
        lacks(t, sep),
    ensures
        text::pieces(s, sep).len() > 0,
        text::pieces(s + t, sep) == text::pieces(s, sep).drop_last().push(
            text::pieces(s, sep).last() + t,
        ),
    decreases t.len(),
{
    text::lemma_pieces_nonempty(s, sep);
    let p = text::pieces(s, sep);
    if t.len() == 0 {
        assert(s + t =~= s);
        assert(p.last() + t =~= p.last());
        assert(p =~= p.drop_last().push(p.last()));
    } else {
        let u = t.drop_last();
        assert forall|i: int| 0 <= i < u.len() implies #[trigger] u[i] != sep by {
            assert(u[i] == t[i]);
        }
        lemma_pieces_extend(s, u, sep);
        assert((s + t).drop_last() =~= s + u);
        assert((s + t).last() == t[t.len() - 1]);
        let q = text::pieces(s + u, sep);
        assert(q.drop_last() =~= p.drop_last());
        assert(q.last() == p.last() + u);
        assert((p.last() + u).push(t.last()) =~= p.last() + t);
    }
}

/// Splitting undoes joining: the pieces are the texts that were joined, as long
/// as the separator is in none of them.
pub proof fn splitting_undoes_joining(parts: Seq<Seq<char>>, sep: char)
    requires
        parts.len() > 0,
        forall|i: int| 0 <= i < parts.len() ==> lacks(#[trigger] parts[i], sep),
    ensures
        text::pieces(text::joined(parts, seq![sep]), sep) == parts,
    decreases parts.len(),
{
    let none = Seq::<char>::empty();
    let x = parts.last();
    assert(lacks(parts[parts.len() - 1], sep));
    if parts.len() == 1 {
        lemma_pieces_extend(none, x, sep);
        assert(none + x =~= x);
        assert(text::pieces(none, sep) =~= seq![none]);
        assert(parts =~= seq![x]);
        assert(text::pieces(x, sep) =~= parts);
    } else {
        let d = parts.drop_last();
        assert forall|i: int| 0 <= i < d.len() implies lacks(#[trigger] d[i], sep) by {
            assert(d[i] == parts[i]);
        }
        splitting_undoes_joining(d, sep);
        let j = text::joined(d, seq![sep]);
        let js = j + seq![sep];
        assert(js.drop_last() =~= j);
        assert(js.last() == sep);
        assert(text::pieces(js, sep) == d.push(none));
        lemma_pieces_extend(js, x, sep);
        assert(d.push(none).drop_last() =~= d);
        assert(none + x =~= x);
        assert(parts =~= d.push(x));
    }
}

/// Joining undoes splitting, and no piece holds the separator.
pub proof fn joining_undoes_splitting(s: Seq<char>, sep: char)
    ensures
        text::pieces(s, sep).len() > 0,
        text::joined(text::pieces(s, sep), seq![sep]) == s,
        forall|i: int| 0 <= i < text::pieces(s, sep).len() ==> lacks(#[trigger] text::pieces(s, sep)[i], sep),
    decreases s.len(),
{
    let p = text::pieces(s, sep);
    if s.len() > 0 {
        let t = s.drop_last();
        let q = text::pieces(t, sep);
        joining_undoes_splitting(t, sep);
        if s.last() == sep {
            joining_puts_the_separator_between(q, Seq::<char>::empty(), seq![sep]);
            assert(text::joined(p, seq![sep]) =~= t.push(sep));
            assert forall|i: int| 0 <= i < p.len() implies lacks(#[trigger] p[i], sep) by {
                if i < q.len() {
                    assert(p[i] == q[i]);
                }
            }
        } else {
            let d = q.drop_last();
            let c = s.last();
            joining_puts_the_separator_between(d, q.last(), seq![sep]);
            joining_puts_the_separator_between(d, q.last().push(c), seq![sep]);
            assert(q =~= d.push(q.last()));
            assert(text::joined(p, seq![sep]) =~= t.push(c));
            assert forall|i: int| 0 <= i < p.len() implies lacks(#[trigger] p[i], sep) by {
                if i < d.len() {
                    assert(p[i] == q[i]);
                } else {
                    assert(lacks(q[q.len() - 1], sep));
                    let l = q.last();
                    assert forall|j: int| 0 <= j < p[i].len() implies #[trigger] p[i][j] != sep by {
                        if j < l.len() {
                            assert(p[i][j] == l[j]);
                        }
                    }
                }
            }
        }
        assert(s =~= t.push(s.last()));
    }
}

/// Whether a text is `item` with white space around it.
pub open spec fn pads(part: Seq<char>, item: Seq<char>) -> bool {
    tight(item) && exists|pre: Seq<char>, post: Seq<char>|
        #![trigger blank(pre), blank(post)]
        blank(pre) && blank(post) && part == pre + item + post
}

/// A list in one text is read item by item: what stands between two commas is
/// an item, white space around it does not count, and what is then empty is
/// none.
pub proof fn comma_lists_are_read_item_by_item(parts: Seq<Seq<char>>, items: Seq<Seq<char>>)
    requires
        parts.len() > 0,
        parts.len() == items.len(),
        forall|i: int| 0 <= i < parts.len() ==> lacks(#[trigger] parts[i], ','),
        forall|i: int| 0 <= i < parts.len() ==> pads(#[trigger] parts[i], items[i]),
    ensures
        text::comma_items(text::joined(parts, seq![','])) == items.filter(
            |x: Seq<char>| x.len() > 0,
        ),
{
    splitting_undoes_joining(parts, ',');
    let tr = |p: Seq<char>| text::trimmed(p);
    assert forall|i: int| 0 <= i < parts.len() implies #[trigger] parts.map_values(tr)[i]
        == items[i] by {
        assert(pads(parts[i], items[i]));
        let (pre, post) = choose|pre: Seq<char>, post: Seq<char>|
            #![trigger blank(pre), blank(post)]
            blank(pre) && blank(post) && parts[i] == pre + items[i] + post;
        trimming_takes_the_ends_off(pre, items[i], post);
    }
    assert(parts.map_values(tr) =~= items);
}

/// Items without commas and without white space around them are read back from
/// the list of them.
pub proof fn comma_lists_read_back(items: Seq<Seq<char>>)
    requires
        items.len() > 0,
        forall|i: int|
            0 <= i < items.len() ==> (#[trigger] items[i]).len() > 0 && tight(items[i]) && lacks(
                items[i],
                ',',
            ),
    ensures
        text::comma_items(text::joined(items, seq![','])) == items,
{
    let none = Seq::<char>::empty();
    assert forall|i: int| 0 <= i < items.len() implies pads(#[trigger] items[i], items[i]) by {
        assert(blank(none));
        assert(items[i] =~= none + items[i] + none);
    }
    comma_lists_are_read_item_by_item(items, items);
    lemma_filter_all(items);
}

proof fn lemma_filter_all(items: Seq<Seq<char>>)
    requires
        forall|i: int| 0 <= i < items.len() ==> (#[trigger] items[i]).len() > 0,
    ensures
        items.filter(|x: Seq<char>| x.len() > 0) == items,
    decreases items.len(),
{
    let keep = |x: Seq<char>| x.len() > 0;
    if items.len() == 0 {
        assert(items.filter(keep) =~= items);
    } else {
        let d = items.drop_last();
        assert forall|i: int| 0 <= i < d.len() implies (#[trigger] d[i]).len() > 0 by {
            assert(d[i] == items[i]);
        }
        lemma_filter_all(d);
        assert(items[items.len() - 1].len() > 0);
        d.lemma_filter_push(items.last(), keep);
        assert(items =~= d.push(items.last()));
    }
}

// ── lines ────────────────────────────────────────────────────────────────────

/// Whether `p` is the line `l` without its line feed: a carriage return behind
/// it belongs to its ending, one more belongs to the line.
pub open spec fn is_line(p: Seq<char>, l: Seq<char>) -> bool {
    lacks(l, '\n') && (p == l.push('\r') || (p == l && (l.len() > 0 ==> l[l.len() - 1] != '\r')))
}

/// Lines are read back from a text in which each ends with a line feed, or with
/// a carriage return and a line feed.
pub proof fn ended_lines_read_back(parts: Seq<Seq<char>>, ls: Seq<Seq<char>>)
    requires
        parts.len() == ls.len(),
        forall|i: int| 0 <= i < parts.len() ==> is_line(#[trigger] parts[i], ls[i]),
    ensures
        text::line_texts(text::joined(parts.push(Seq::<char>::empty()), seq!['\n'])) == ls,
{
    let none = Seq::<char>::empty();
    lemma_lines(parts, ls, none);
    assert(text::line_texts(text::joined(parts.push(none), seq!['\n'])) =~= ls);
}

/// A last line that has no ending is a line too.
pub proof fn open_lines_read_back(parts: Seq<Seq<char>>, ls: Seq<Seq<char>>, last: Seq<char>)
    requires
        parts.len() == ls.len(),
        forall|i: int| 0 <= i < parts.len() ==> is_line(#[trigger] parts[i], ls[i]),
        lacks(last, '\n'),
        last.len() > 0,
    ensures
        text::line_texts(text::joined(parts.push(last), seq!['\n'])) == ls.push(last),
{
    lemma_lines(parts, ls, last);
    assert(text::line_texts(text::joined(parts.push(last), seq!['\n'])) =~= ls.push(last));
}

proof fn lemma_lines(parts: Seq<Seq<char>>, ls: Seq<Seq<char>>, last: Seq<char>)
    requires
        parts.len() == ls.len(),
        forall|i: int| 0 <= i < parts.len() ==> is_line(#[trigger] parts[i], ls[i]),
        lacks(last, '\n'),
    ensures
        ({
            let p = text::pieces(text::joined(parts.push(last), seq!['\n']), '\n');
            &&& p == parts.push(last)
            &&& p.drop_last().map_values(|x: Seq<char>| text::strip_cr(x)) == ls
        }),
{
    let all = parts.push(last);
    assert forall|i: int| 0 <= i < all.len() implies lacks(#[trigger] all[i], '\n') by {
        if i < parts.len() {
            assert(all[i] == parts[i]);
            assert(is_line(parts[i], ls[i]));
            assert forall|j: int| 0 <= j < all[i].len() implies #[trigger] all[i][j] != '\n' by {
                if j < ls[i].len() {
                    assert(all[i][j] == ls[i][j]);
                }
            }
        }
    }
    splitting_undoes_joining(all, '\n');
    assert(all.drop_last() =~= parts);
    let st = |x: Seq<char>| text::strip_cr(x);
    assert forall|i: int| 0 <= i < parts.len() implies #[trigger] parts.map_values(st)[i]
        == ls[i] by {
        assert(is_line(parts[i], ls[i]));
        if parts[i] == ls[i].push('\r') {
            assert(ls[i].push('\r').drop_last() =~= ls[i]);
        }
    }
    assert(parts.map_values(st) =~= ls);
}

// ── numbers ──────────────────────────────────────────────────────────────────

/// A number is written digit by digit, the most significant one first, without
/// leading zeros.
pub proof fn numbers_are_written_digit_by_digit(n: nat, d: nat)
    requires
        d < 10,
    ensures
        text::decimal(d).len() == 1,
        text::decimal(d)[0] as int == '0' as int + d,
        n > 0 ==> text::decimal(10 * n + d) == text::decimal(n).push(text::decimal(d)[0]),
{
    if n > 0 {
        assert((10 * n + d) / 10 == n);
        assert((10 * n + d) % 10 == d);
    }
}

/// Whether a text is made of decimal digits.
pub open spec fn all_digits(s: Seq<char>) -> bool {
    s.len() > 0 && forall|i: int| 0 <= i < s.len() ==> '0' <= #[trigger] s[i] <= '9'
}

/// Nothing but digits, with or without a plus sign before them, is read as a
/// number, and the number read is never above the bound.
pub proof fn only_digits_are_read(s: Seq<char>, max: nat)
    ensures
        text::unsigned(s, max) is Some ==> all_digits(s) || (s.len() > 0 && s[0] == '+' && all_digits(
            s.skip(1),
        )),
        text::unsigned(s, max) matches Some(n) ==> n <= max,
{
    let d = text::unsigned_digits(s);
    if text::unsigned(s, max) is Some {
        assert forall|i: int| 0 <= i < d.len() implies '0' <= #[trigger] d[i] <= '9' by {
            assert(text::is_digit(d[i]));
        }
        if s[0] == '+' {
            assert(d =~= s.skip(1));
        }
    }
}

/// Digits are read as the number they denote: another digit behind them makes
/// it ten times as much and the digit, up to the bound. A plus sign before
/// them changes nothing.
pub proof fn digits_are_read_as_their_number(s: Seq<char>, d: nat, max: nat)
    requires
        d < 10,
    ensures
        text::unsigned(seq![('0' as u32 + d) as char], max) == (if d <= max {
            Some(d)
        } else {
            None
        }),
        all_digits(s) ==> text::unsigned(s.push(('0' as u32 + d) as char), max) == (
        match text::unsigned(s, max) {
            Some(n) => if 10 * n + d <= max {
                Some(10 * n + d)
            } else {
                None
            },
            None => None,
        }),
        all_digits(s) ==> text::unsigned(seq!['+'] + s, max) == text::unsigned(s, max),
{
    let c = ('0' as u32 + d) as char;
    assert(c as int == 48 + d);
    let one = seq![c];
    assert(one.drop_last() =~= Seq::<char>::empty());
    assert(text::digits_value(one.drop_last()) == 0);
    assert(text::digits_value(one) == d);
    assert(text::unsigned_digits(one) == one);
    assert(text::is_digit(one[0]));
    if all_digits(s) {
        let t = s.push(c);
        assert('0' <= s[0] <= '9');
        assert(t[0] == s[0]);
        assert(text::unsigned_digits(s) == s);
        assert(text::unsigned_digits(t) == t);
        assert forall|i: int| 0 <= i < s.len() implies text::is_digit(#[trigger] s[i]) by {}
        assert forall|i: int| 0 <= i < t.len() implies text::is_digit(#[trigger] t[i]) by {
            if i < s.len() {
                assert(t[i] == s[i]);
            }
        }
        assert(t.drop_last() =~= s);
        assert(text::digits_value(t) == text::digits_value(s) * 10 + d);
        let p = seq!['+'] + s;
        assert(p.drop_first() =~= s);
        assert(text::unsigned_digits(p) == s);
    }
}

// ── characters ───────────────────────────────────────────────────────────────

/// White space is what Unicode gives that property: these code points and no
/// others.
pub proof fn white_space_is_what_unicode_says(c: char)
    ensures
        text::white_space(c) <==> seq![
            0x09int,
            0x0a,
            0x0b,
            0x0c,
            0x0d,
            0x20,
            0x85,
            0xa0,
            0x1680,
            0x2000,
            0x2001,
            0x2002,
            0x2003,
            0x2004,
            0x2005,
            0x2006,
            0x2007,
            0x2008,
            0x2009,
            0x200a,
            0x2028,
            0x2029,
            0x202f,
            0x205f,
            0x3000,
        ].contains(c as int),
{
    let all = seq![
        0x09int,
        0x0a,
        0x0b,
        0x0c,
        0x0d,
        0x20,
        0x85,
        0xa0,
        0x1680,
        0x2000,
        0x2001,
        0x2002,
        0x2003,
        0x2004,
        0x2005,
        0x2006,
        0x2007,
        0x2008,
        0x2009,
        0x200a,
        0x2028,
        0x2029,
        0x202f,
        0x205f,
        0x3000,
    ];
    let u = c as int;
    assert(all[0] == 0x09 && all[1] == 0x0a && all[2] == 0x0b && all[3] == 0x0c && all[4] == 0x0d);
    assert(all[5] == 0x20 && all[6] == 0x85 && all[7] == 0xa0 && all[8] == 0x1680);
    assert(all[9] == 0x2000 && all[10] == 0x2001 && all[11] == 0x2002 && all[12] == 0x2003);
    assert(all[13] == 0x2004 && all[14] == 0x2005 && all[15] == 0x2006 && all[16] == 0x2007);
    assert(all[17] == 0x2008 && all[18] == 0x2009 && all[19] == 0x200a && all[20] == 0x2028);
    assert(all[21] == 0x2029 && all[22] == 0x202f && all[23] == 0x205f && all[24] == 0x3000);
    if all.contains(u) {
        let i = choose|i: int| 0 <= i < all.len() && all[i] == u;
        assert(text::white_space(c));
    }
}

/// Of lines with white space around them what is left without it is kept, line
/// by line, unless nothing is left.
pub proof fn lines_are_trimmed_one_by_one(
    s: Seq<char>,
    t: Seq<char>,
    pre: Seq<char>,
    x: Seq<char>,
    post: Seq<char>,
)
    requires
        blank(pre),
        blank(post),
        tight(x),
    ensures
        text::line_texts(s).len() == 0 ==> text::trimmed_lines(s).len() == 0,
        text::line_texts(t) == text::line_texts(s).push(pre + x + post) ==> text::trimmed_lines(t)
            == (if x.len() > 0 {
            text::trimmed_lines(s).push(x)
        } else {
            text::trimmed_lines(s)
        }),
{
    let tr = |p: Seq<char>| text::trimmed(p);
    let keep = |p: Seq<char>| p.len() > 0;
    let ls = text::line_texts(s);
    ls.map_values(tr).lemma_filter_len(keep);
    trimming_takes_the_ends_off(pre, x, post);
    assert(ls.push(pre + x + post).map_values(tr) =~= ls.map_values(tr).push(x));
    ls.map_values(tr).lemma_filter_push(x, keep);
}

} // verus!
