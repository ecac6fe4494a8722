//! What a list of modifiers may look like without meaning something else.
use vstd::prelude::*;

use crate::bindings;
use crate::text;

verus! {

/// Whether a list has a part with `name`.
pub open spec fn has_part(s: Seq<char>, name: Seq<char>) -> bool {
    let parts = bindings::listed_modifiers(s);
    bindings::names(parts, parts.len() as int, name)
}

/// The names of modifiers.
pub open spec fn is_modifier(name: Seq<char>) -> bool {
    ||| name == "shift"@
    ||| name == "ctrl"@
    ||| name == "control"@
    ||| name == "alt"@
    ||| name == "mod1"@
    ||| name == "mod3"@
    ||| name == "super"@
    ||| name == "mod4"@
    ||| name == "logo"@
    ||| name == "mod5"@
}

/// Whether some part of a list names a modifier.
pub open spec fn names_a_modifier(s: Seq<char>) -> bool {
    exists|name: Seq<char>| is_modifier(name) && #[trigger] has_part(s, name)
}

/// The modifiers that the parts of a list name, taken together.
pub open spec fn united(s: Seq<char>) -> bindings::Modifiers {
    bindings::Modifiers {
        shift: has_part(s, "shift"@),
        ctrl: has_part(s, "ctrl"@) || has_part(s, "control"@),
        mod1: has_part(s, "alt"@) || has_part(s, "mod1"@),
        mod3: has_part(s, "mod3"@),
        mod4: has_part(s, "super"@) || has_part(s, "mod4"@) || has_part(s, "logo"@),
        mod5: has_part(s, "mod5"@),
    }
}

/// Whether two lists have the same names among their parts.
pub open spec fn same_parts(s: Seq<char>, t: Seq<char>) -> bool {
    forall|name: Seq<char>| #[trigger] has_part(s, name) <==> has_part(t, name)
}

/// Whether a character separates the parts of a list.
pub open spec fn is_separator(c: char) -> bool {
    c == ',' || c == '+'
}

/// Text without a separator is one piece.
proof fn lemma_one_piece(s: Seq<char>)
    requires
        forall|i: int| 0 <= i < s.len() ==> !is_separator(#[trigger] s[i]),
    ensures
        text::pieces(s, ',', '+') == seq![s],
    decreases s.len(),
{
    if s.len() > 0 {
        let rest = s.drop_last();
        assert forall|i: int| 0 <= i < rest.len() implies !is_separator(#[trigger] rest[i]) by {
            assert(rest[i] == s[i]);
        }
        lemma_one_piece(rest);
        assert(!is_separator(s[s.len() - 1]));
        assert(rest.push(s.last()) =~= s);
        assert(text::pieces(s, ',', '+') =~= seq![s]);
    }
}

/// What is not white space is not trimmed away.
proof fn lemma_trim_keeps(s: Seq<char>, i: int)
    requires
        0 <= i < s.len(),
        !text::is_white_space(s[i]),
    ensures
        text::trimmed(s).contains(s[i]),
    decreases s.len(),
{
    if text::is_white_space(s[0]) {
        lemma_trim_keeps(s.subrange(1, s.len() as int), i - 1);
    } else if text::is_white_space(s[s.len() - 1]) {
        lemma_trim_keeps(s.subrange(0, s.len() - 1), i);
    }
}

/// The word `none` has no separator in it or around it.
proof fn lemma_none_is_one_part(s: Seq<char>)
    requires
        bindings::part_name(s) == "none"@,
    ensures
        forall|i: int| 0 <= i < s.len() ==> !is_separator(#[trigger] s[i]),
        bindings::listed_modifiers(s) == seq![s],
{
    reveal_strlit("none");
    assert forall|i: int| 0 <= i < s.len() implies !is_separator(#[trigger] s[i]) by {
        if is_separator(s[i]) {
            lemma_trim_keeps(s, i);
            let word = text::trimmed(s);
            let k = choose|k: int| 0 <= k < word.len() && word[k] == s[i];
            assert(text::lowered(word)[k] == s[i]);
            assert("none"@ =~= seq!['n', 'o', 'n', 'e']);
            assert(k == 0 || k == 1 || k == 2 || k == 3);
        }
    }
    lemma_one_piece(s);
}

/// No modifier is called `none`.
proof fn lemma_none_is_no_modifier()
    ensures
        !is_modifier("none"@),
{
    reveal_strlit("none");
    reveal_strlit("shift");
    reveal_strlit("ctrl");
    reveal_strlit("control");
    reveal_strlit("alt");
    reveal_strlit("mod1");
    reveal_strlit("mod3");
    reveal_strlit("super");
    reveal_strlit("mod4");
    reveal_strlit("logo");
    reveal_strlit("mod5");
    assert("none"@[0] == 'n');
    assert("mod1"@[0] == 'm');
    assert("mod3"@[0] == 'm');
    assert("mod4"@[0] == 'm');
    assert("mod5"@[0] == 'm');
    assert("logo"@[0] == 'l');
    assert("ctrl"@[0] == 'c');
}

/// A list with a part that names a modifier stands for the modifiers that its
/// parts name, taken together: the configured modifier makes no difference.
pub proof fn named_modifiers_are_united(s: Seq<char>, config: Seq<char>)
    requires
        names_a_modifier(s),
    ensures
        bindings::modifiers(s, config) == united(s),
        united(s) != bindings::no_modifiers(),
{
    let name = choose|name: Seq<char>| is_modifier(name) && #[trigger] has_part(s, name);
    if bindings::part_name(s) == "none"@ {
        lemma_none_is_one_part(s);
        lemma_none_is_no_modifier();
        let parts = bindings::listed_modifiers(s);
        let i = choose|i: int|
            0 <= i < parts.len() && bindings::part_name(#[trigger] parts[i]) == name;
        assert(parts[i] == s);
    }
}

/// The configured modifier makes no difference to a list with a part that names
/// a modifier.
pub proof fn named_modifiers_need_no_default(s: Seq<char>, a: Seq<char>, b: Seq<char>)
    requires
        names_a_modifier(s),
    ensures
        bindings::modifiers(s, a) == bindings::modifiers(s, b),
{
    named_modifiers_are_united(s, a);
    named_modifiers_are_united(s, b);
}

/// Lists with the same names among their parts stand for the same modifiers,
/// in whatever order and however often the parts come. Where no part names a
/// modifier this is said of lists that are both the word `none`, or neither.
pub proof fn same_parts_same_modifiers(s: Seq<char>, t: Seq<char>, config: Seq<char>)
    requires
        same_parts(s, t),
        names_a_modifier(s) || (bindings::part_name(s) == "none"@) == (bindings::part_name(t)
            == "none"@),
    ensures
        bindings::modifiers(s, config) == bindings::modifiers(t, config),
{
    assert(united(s) == united(t));
    if names_a_modifier(s) {
        let name = choose|name: Seq<char>| is_modifier(name) && #[trigger] has_part(s, name);
        assert(has_part(t, name));
        named_modifiers_are_united(s, config);
        named_modifiers_are_united(t, config);
    }
}

/// Whether two texts are the same but for the case of letters.
pub open spec fn same_letters(s: Seq<char>, t: Seq<char>) -> bool {
    &&& s.len() == t.len()
    &&& forall|i: int|
        0 <= i < s.len() ==> text::lower_char(#[trigger] s[i]) == text::lower_char(t[i])
}

/// Whether two texts are the same but for the case of letters, and which of the
/// separators stands where.
pub open spec fn alike(s: Seq<char>, t: Seq<char>) -> bool {
    &&& s.len() == t.len()
    &&& forall|i: int|
        0 <= i < s.len() ==> text::lower_char(#[trigger] s[i]) == text::lower_char(t[i]) || (
        is_separator(s[i]) && is_separator(t[i]))
}

/// Characters that are the same but for their case are both separators or
/// neither, and both white space or neither.
proof fn lemma_same_letter(a: char, b: char)
    requires
        text::lower_char(a) == text::lower_char(b),
    ensures
        is_separator(a) == is_separator(b),
        text::is_white_space(a) == text::is_white_space(b),
{
}

/// Texts that are the same but for the case of letters have the same name.
proof fn lemma_same_name(s: Seq<char>, t: Seq<char>)
    requires
        same_letters(s, t),
    ensures
        bindings::part_name(s) == bindings::part_name(t),
    decreases s.len(),
{
    if s.len() > 0 {
        let n = s.len() as int;
        lemma_same_letter(s[0], t[0]);
        lemma_same_letter(s[n - 1], t[n - 1]);
        if text::is_white_space(s[0]) {
            lemma_same_name(s.subrange(1, n), t.subrange(1, n));
        } else if text::is_white_space(s[n - 1]) {
            lemma_same_name(s.subrange(0, n - 1), t.subrange(0, n - 1));
        }
    }
    assert(text::lowered(s) =~= text::lowered(t));
}

/// Texts that are alike have pieces that are the same but for the case of
/// letters.
proof fn lemma_alike_pieces(s: Seq<char>, t: Seq<char>)
    requires
        alike(s, t),
    ensures
        text::pieces(s, ',', '+').len() == text::pieces(t, ',', '+').len() > 0,
        forall|i: int|
            0 <= i < text::pieces(s, ',', '+').len() ==> same_letters(
                #[trigger] text::pieces(s, ',', '+')[i],
                text::pieces(t, ',', '+')[i],
            ),
    decreases s.len(),
{
    if s.len() > 0 {
        let p = text::pieces(s.drop_last(), ',', '+');
        let q = text::pieces(t.drop_last(), ',', '+');
        lemma_alike_pieces(s.drop_last(), t.drop_last());
        let a = s[s.len() - 1];
        let b = t[s.len() - 1];
        if !is_separator(a) || !is_separator(b) {
            assert(text::lower_char(a) == text::lower_char(b));
            lemma_same_letter(a, b);
            assert(same_letters(p[p.len() - 1], q[p.len() - 1]));
            assert(same_letters(p.last().push(a), q.last().push(b)));
        }
    }
}

/// A name that is among the parts of a list is among those of one that is alike.
proof fn lemma_alike_parts(s: Seq<char>, t: Seq<char>, name: Seq<char>)
    requires
        alike(s, t),
        has_part(s, name),
    ensures
        has_part(t, name),
{
    let parts = bindings::listed_modifiers(s);
    let others = bindings::listed_modifiers(t);
    lemma_alike_pieces(s, t);
    let i = choose|i: int|
        0 <= i < parts.len() && bindings::part_name(#[trigger] parts[i]) == name;
    assert(same_letters(parts[i], others[i]));
    lemma_same_name(parts[i], others[i]);
}

/// A list that is alike to the word `none` is that word.
proof fn lemma_alike_none(s: Seq<char>, t: Seq<char>)
    requires
        alike(s, t),
        bindings::part_name(s) == "none"@,
    ensures
        bindings::part_name(t) == "none"@,
{
    lemma_none_is_one_part(s);
    assert(same_letters(s, t)) by {
        assert forall|i: int| 0 <= i < s.len() implies text::lower_char(#[trigger] s[i])
            == text::lower_char(t[i]) by {
            assert(!is_separator(s[i]));
        }
    }
    lemma_same_name(s, t);
}

/// The case of letters makes no difference to a list, nor does which separator
/// stands between its parts.
pub proof fn case_and_separators_make_no_difference(
    s: Seq<char>,
    t: Seq<char>,
    config: Seq<char>,
)
    requires
        alike(s, t),
    ensures
        same_parts(s, t),
        bindings::modifiers(s, config) == bindings::modifiers(t, config),
{
    assert forall|name: Seq<char>| #[trigger] has_part(s, name) <==> has_part(t, name) by {
        if has_part(s, name) {
            lemma_alike_parts(s, t, name);
        }
        if has_part(t, name) {
            lemma_alike_parts(t, s, name);
        }
    }
    if bindings::part_name(s) == "none"@ {
        lemma_alike_none(s, t);
    }
    if bindings::part_name(t) == "none"@ {
        lemma_alike_none(t, s);
    }
    same_parts_same_modifiers(s, t, config);
}

/// Two lists, joined by a separator.
pub open spec fn joined(a: Seq<char>, separator: char, b: Seq<char>) -> Seq<char> {
    a + seq![separator] + b
}

/// The pieces of two joined lists are those of the one, and then those of the
/// other.
proof fn lemma_joined_pieces(a: Seq<char>, separator: char, b: Seq<char>)
    requires
        is_separator(separator),
    ensures
        text::pieces(joined(a, separator, b), ',', '+') == text::pieces(a, ',', '+')
            + text::pieces(b, ',', '+'),
        text::pieces(b, ',', '+').len() > 0,
    decreases b.len(),
{
    let all = joined(a, separator, b);
    let first = text::pieces(a, ',', '+');
    let second = text::pieces(b, ',', '+');
    if b.len() == 0 {
        assert(all.drop_last() =~= a);
        assert(b =~= Seq::empty());
        assert(text::pieces(all, ',', '+') =~= first + second);
    } else {
        let rest = b.drop_last();
        lemma_joined_pieces(a, separator, rest);
        assert(all.drop_last() =~= joined(a, separator, rest));
        assert(all.last() == b.last());
        assert(text::pieces(all, ',', '+') =~= first + second);
    }
}

/// The names among the parts of two joined lists are those of either.
pub proof fn joined_lists_have_all_parts(
    a: Seq<char>,
    separator: char,
    b: Seq<char>,
    name: Seq<char>,
)
    requires
        is_separator(separator),
    ensures
        has_part(joined(a, separator, b), name) <==> has_part(a, name) || has_part(b, name),
{
    let all = bindings::listed_modifiers(joined(a, separator, b));
    let first = bindings::listed_modifiers(a);
    let second = bindings::listed_modifiers(b);
    lemma_joined_pieces(a, separator, b);
    if has_part(joined(a, separator, b), name) {
        let i = choose|i: int|
            0 <= i < all.len() && bindings::part_name(#[trigger] all[i]) == name;
        if i < first.len() {
            assert(first[i] == all[i]);
        } else {
            assert(second[i - first.len()] == all[i]);
        }
    }
    if has_part(a, name) {
        let i = choose|i: int|
            0 <= i < first.len() && bindings::part_name(#[trigger] first[i]) == name;
        assert(all[i] == first[i]);
    }
    if has_part(b, name) {
        let i = choose|i: int|
            0 <= i < second.len() && bindings::part_name(#[trigger] second[i]) == name;
        assert(all[first.len() + i] == second[i]);
    }
}

/// Parts that change places make no difference to a list that names a modifier,
/// nor do parts that come again.
pub proof fn order_and_repetition_make_no_difference(
    a: Seq<char>,
    x: char,
    b: Seq<char>,
    y: char,
    config: Seq<char>,
)
    requires
        is_separator(x),
        is_separator(y),
        names_a_modifier(joined(a, x, b)),
    ensures
        bindings::modifiers(joined(a, x, b), config) == bindings::modifiers(
            joined(b, y, a),
            config,
        ),
        bindings::modifiers(joined(a, x, b), config) == bindings::modifiers(
            joined(joined(a, x, b), y, a),
            config,
        ),
{
    let s = joined(a, x, b);
    assert forall|name: Seq<char>| #[trigger]
        has_part(s, name) <==> has_part(joined(b, y, a), name) by {
        joined_lists_have_all_parts(a, x, b, name);
        joined_lists_have_all_parts(b, y, a, name);
    }
    assert forall|name: Seq<char>| #[trigger]
        has_part(s, name) <==> has_part(joined(s, y, a), name) by {
        joined_lists_have_all_parts(a, x, b, name);
        joined_lists_have_all_parts(s, y, a, name);
    }
    same_parts_same_modifiers(s, joined(b, y, a), config);
    same_parts_same_modifiers(s, joined(s, y, a), config);
}

} // verus!
