//! What the registered keys do: the bindings together with the actions that
//! they run.
use vstd::prelude::*;

use crate::actions;
use crate::bindings;
use crate::config::Binding;
use crate::connection::AppModel;
use crate::text;

verus! {

/// A number that is written in decimal is read back.
pub proof fn decimal_is_read_back(n: nat, limit: int)
    requires
        n <= limit,
    ensures
        text::parsed_number(text::decimal(n), 10, limit) == Some(n as int),
{
    lemma_decimal(n);
    let s = text::decimal(n);
    assert(text::digit_value(s[0], 10) is Some);
    assert(text::unsigned_digits(s) == s);
}

/// A decimal is made of digits that write its number.
proof fn lemma_decimal(n: nat)
    ensures
        text::decimal(n).len() > 0,
        text::all_digits(text::decimal(n), 10),
        text::digits_value(text::decimal(n), 10) == n,
    decreases n,
{
    let s = text::decimal(n);
    if n >= 10 {
        let front = text::decimal(n / 10);
        lemma_decimal(n / 10);
        assert(s.drop_last() =~= front);
        assert forall|i: int| 0 <= i < s.len() implies text::digit_value(
            #[trigger] s[i],
            10,
        ) is Some by {
            if i < front.len() {
                assert(s[i] == front[i]);
            }
        }
    } else {
        assert(s.drop_last() =~= Seq::empty());
        assert(text::digits_value(s.drop_last(), 10) == 0);
    }
}

/// A character that does not occur is at no position.
pub proof fn lemma_no_position(s: Seq<char>, c: char)
    requires
        forall|i: int| 0 <= i < s.len() ==> s[i] != c,
    ensures
        text::position_of(s, c) == s.len(),
    decreases s.len(),
{
    if s.len() > 0 {
        lemma_no_position(s.subrange(1, s.len() as int), c);
    }
}

/// The first colon behind a name without one is the one that was put there.
proof fn lemma_colon(name: Seq<char>, arg: Seq<char>)
    requires
        forall|i: int| 0 <= i < name.len() ==> name[i] != ':',
    ensures
        text::position_of(name + seq![':'] + arg, ':') == name.len(),
    decreases name.len(),
{
    let s = name + seq![':'] + arg;
    if name.len() > 0 {
        let rest = name.subrange(1, name.len() as int);
        lemma_colon(rest, arg);
        assert(s.subrange(1, s.len() as int) =~= rest + seq![':'] + arg);
        assert(s[0] == name[0]);
    } else {
        assert(s[0] == ':');
    }
}

/// An action made of a name without a colon, a colon and an argument is taken
/// apart into that name and argument.
pub proof fn action_is_taken_apart(name: Seq<char>, arg: Seq<char>)
    requires
        forall|i: int| 0 <= i < name.len() ==> name[i] != ':',
    ensures
        actions::action_name(name + seq![':'] + arg) == name,
        actions::action_arg(name + seq![':'] + arg) == Some(arg),
{
    let s = name + seq![':'] + arg;
    lemma_colon(name, arg);
    assert(s.take(name.len() as int) =~= name);
    assert(s.skip(name.len() as int + 1) =~= arg);
}

/// The digit of every tag is bound to focusing it, and with shift to sending
/// the focused window to it, and the actions do just that.
pub proof fn tag_keys_reach_their_tags(d: AppModel, t: int)
    requires
        0 <= t < 9,
    ensures
        ({
            let all = bindings::all_bindings(d.config);
            let focus = all[17 + 2 * t];
            let send = all[18 + 2 * t];
            &&& focus.0 == text::decimal((t + 1) as nat) && focus.1 == ""@
            &&& send.0 == text::decimal((t + 1) as nat) && send.1 == bindings::with_shift(
                d.config.modifier@,
            )
            &&& actions::action_run(d, focus.2) == actions::tag_chosen(d, t as usize)
            &&& actions::action_run(d, send.2) == actions::tag_sent(d, t as usize)
        }),
{
    let all = bindings::all_bindings(d.config);
    let tags = bindings::tag_bindings(d.config.modifier@, 9);
    let number = text::decimal(t as nat);
    assert(bindings::core_bindings(d.config.modifier@).len() == 17);
    assert(all[17 + 2 * t] == tags[2 * t]);
    assert(all[18 + 2 * t] == tags[2 * t + 1]);
    assert((2 * t) / 2 == t && (2 * t) % 2 == 0);
    assert((2 * t + 1) / 2 == t && (2 * t + 1) % 2 == 1);
    reveal_strlit("focus_tag:");
    reveal_strlit("focus_tag");
    reveal_strlit("send_to_tag:");
    reveal_strlit("send_to_tag");
    reveal_strlit("spawn_terminal");
    reveal_strlit("spawn_launcher");
    reveal_strlit("spawn");
    reveal_strlit("close");
    reveal_strlit("focus_next");
    reveal_strlit("focus_prev");
    assert("focus_tag:"@ + number =~= "focus_tag"@ + seq![':'] + number);
    assert("send_to_tag:"@ + number =~= "send_to_tag"@ + seq![':'] + number);
    action_is_taken_apart("focus_tag"@, number);
    action_is_taken_apart("send_to_tag"@, number);
    decimal_is_read_back(t as nat, usize::MAX as int);
}

/// A configured binding of the `spawn` action spawns its argument, whatever
/// that holds.
pub proof fn configured_commands_are_spawned(d: AppModel, b: Binding)
    requires
        b.action@ == "spawn"@,
        b.arg is Some,
        b.arg->0@.len() > 0,
    ensures
        actions::action_run(d, bindings::configured_action(b)) == actions::spawning(
            d,
            b.arg->0@,
        ),
{
    let arg = b.arg->0@;
    reveal_strlit("spawn");
    reveal_strlit(":");
    reveal_strlit("spawn_terminal");
    reveal_strlit("spawn_launcher");
    lemma_no_position("spawn"@, ':');
    assert("spawn"@ + ":"@ + arg =~= "spawn"@ + seq![':'] + arg);
    action_is_taken_apart("spawn"@, arg);
}

} // verus!
