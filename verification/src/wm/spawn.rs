//! How a command string is run: directly, or by a shell where it holds shell
//! syntax.
use vstd::prelude::*;
use vstd::string::*;

use crate::text;

verus! {

/// The characters that a shell gives a meaning of its own.
pub open spec fn is_shell_syntax(c: char) -> bool {
    ||| c == '\''
    ||| c == '"'
    ||| c == '\\'
    ||| c == '|'
    ||| c == '&'
    ||| c == ';'
    ||| c == '<'
    ||| c == '>'
    ||| c == '('
    ||| c == ')'
    ||| c == '$'
    ||| c == '`'
    ||| c == '*'
    ||| c == '?'
    ||| c == '~'
    ||| c == '{'
    ||| c == '}'
    ||| c == '['
    ||| c == ']'
    ||| c == '='
    ||| c == '\n'
    ||| c == '\r'
}

/// Whether any character of `s` is shell syntax.
pub open spec fn has_shell_syntax(s: Seq<char>) -> bool {
    exists|i: int| 0 <= i < s.len() && is_shell_syntax(#[trigger] s[i])
}

/// Whether a command can be run without a shell: it is not blank, and free of
/// shell syntax once it is trimmed.
pub open spec fn is_direct(command: Seq<char>) -> bool {
    text::trimmed(command).len() > 0 && !has_shell_syntax(text::trimmed(command))
}

/// The shell that is used where the environment names none.
pub open spec fn shell_or_default(shell: Option<Seq<char>>) -> Seq<char> {
    match shell {
        Some(s) => s,
        None => "/bin/sh"@,
    }
}

/// The program and arguments that run a command.
pub open spec fn argv(command: Seq<char>, shell: Option<Seq<char>>) -> Seq<Seq<char>> {
    if is_direct(command) {
        text::words(text::trimmed(command))
    } else {
        seq![shell_or_default(shell), "-c"@, command]
    }
}

/// Whether `byte` is a special shell syntax character.
pub fn shell_syntax_byte(byte: u8) -> (r: bool)
    ensures
        r == is_shell_syntax(byte as char),
{
    byte == 0x27 || byte == 0x22 || byte == 0x5c || byte == 0x7c || byte == 0x26 || byte == 0x3b
        || byte == 0x3c || byte == 0x3e || byte == 0x28 || byte == 0x29 || byte == 0x24 || byte
        == 0x60 || byte == 0x2a || byte == 0x3f || byte == 0x7e || byte == 0x7b || byte == 0x7d
        || byte == 0x5b || byte == 0x5d || byte == 0x3d || byte == 0x0a || byte == 0x0d
}

/// Whether `c` is a special shell syntax character.
fn shell_syntax_char(c: char) -> (r: bool)
    ensures
        r == is_shell_syntax(c),
{
    c <= '\u{7f}' && shell_syntax_byte(c as u8)
}

/// Whether `s` holds shell syntax.
fn holds_shell_syntax(s: &str) -> (r: bool)
    ensures
        r == has_shell_syntax(s@),
{
    let chars = text::characters(s);
    let mut i: usize = 0;
    while i < chars.len()
        invariant
            chars@ == s@,
            i <= chars@.len(),
            forall|k: int| 0 <= k < i ==> !is_shell_syntax(#[trigger] s@[k]),
        decreases chars@.len() - i,
    {
        if shell_syntax_char(chars[i]) {
            assert(is_shell_syntax(s@[i as int]));
            return true;
        }
        i += 1;
    }
    false
}

/// The plain arguments of a command that needs no shell: `Some` for direct
/// execution, `None` if a shell is needed.
pub fn direct_command_args(command: &str) -> (r: Option<Vec<String>>)
    ensures
        r is Some <==> is_direct(command@),
        r is Some ==> text::views(r->0@) == text::words(text::trimmed(command@)),
{
    let trimmed = text::trim(command);
    if trimmed.is_empty() || holds_shell_syntax(trimmed) {
        return None;
    }
    let words = text::split_words(trimmed);
    let mut args: Vec<String> = Vec::new();
    let mut i: usize = 0;
    while i < words.len()
        invariant
            i <= words@.len() == text::words(trimmed@).len(),
            forall|k: int|
                0 <= k < words@.len() ==> (#[trigger] words@[k])@ == text::words(trimmed@)[k],
            args@.len() == i,
            forall|k: int| 0 <= k < i ==> (#[trigger] args@[k])@ == text::words(trimmed@)[k],
        decreases words@.len() - i,
    {
        args.push(String::from_str(words[i]));
        i += 1;
    }
    assert(text::views(args@) =~= text::words(trimmed@));
    Some(args)
}

/// The program and arguments that run a command detached, given the shell that
/// the environment names.
pub fn spawn(command: &str, shell: &Option<String>) -> (r: Vec<String>)
    ensures
        text::views(r@) == argv(command@, text::opt_view(*shell)),
{
    match direct_command_args(command) {
        Some(args) => args,
        None => {
            let mut args: Vec<String> = Vec::new();
            match shell {
                Some(s) => args.push(s.clone()),
                None => args.push(String::from_str("/bin/sh")),
            }
            args.push(String::from_str("-c"));
            args.push(String::from_str(command));
            assert(text::views(args@) =~= argv(command@, text::opt_view(*shell)));
            args
        },
    }
}

/// The program of an argument list and what is handed to it; `None` for an
/// empty list, which cannot be run.
pub fn spawn_command(args: Vec<String>) -> (r: Option<(String, Vec<String>)>)
    ensures
        r is None <==> args@.len() == 0,
        r matches Some(parts) ==> parts.0 == args@[0] && parts.1@ == args@.skip(1),
{
    if args.len() == 0 {
        return None;
    }
    let mut rest: Vec<String> = args;
    let program = rest.remove(0);
    assert(rest@ =~= args@.skip(1));
    Some((program, rest))
}

/// How the configured terminal is run.
pub fn terminal(command: &str, shell: &Option<String>) -> (r: Vec<String>)
    ensures
        text::views(r@) == argv(command@, text::opt_view(*shell)),
{
    spawn(command, shell)
}

/// How the configured launcher is run.
pub fn launcher(command: &str, shell: &Option<String>) -> (r: Vec<String>)
    ensures
        text::views(r@) == argv(command@, text::opt_view(*shell)),
{
    spawn(command, shell)
}

/// Splitting text that is not all white space gives at least one word, no word
/// is empty, and no word holds white space.
proof fn lemma_words(s: Seq<char>)
    ensures
        (exists|i: int| 0 <= i < s.len() && !text::is_ascii_space(#[trigger] s[i])) ==> text::words(
            s,
        ).len() > 0,
        s.len() > 0 && !text::is_ascii_space(s.last()) ==> text::words(s).len() > 0,
        forall|k: int|
            0 <= k < text::words(s).len() ==> (#[trigger] text::words(s)[k]).len() > 0,
        forall|k: int, j: int|
            0 <= k < text::words(s).len() && 0 <= j < text::words(s)[k].len()
                ==> !text::is_ascii_space(#[trigger] text::words(s)[k][j]),
        forall|k: int, j: int|
            0 <= k < text::words(s).len() && 0 <= j < text::words(s)[k].len() ==> s.contains(
                #[trigger] text::words(s)[k][j],
            ),
    decreases s.len(),
{
    if s.len() > 0 {
        let rest = s.drop_last();
        let before = text::words(rest);
        let all = text::words(s);
        lemma_words(rest);
        assert(s[s.len() - 1] == s.last());
        if s.len() > 1 {
            assert(rest.last() == s[s.len() - 2]);
        }
        assert forall|c: char| rest.contains(c) implies #[trigger] s.contains(c) by {
            let i = choose|i: int| 0 <= i < rest.len() && rest[i] == c;
            assert(s[i] == c);
        }
        if exists|i: int| 0 <= i < s.len() && !text::is_ascii_space(#[trigger] s[i]) {
            let i = choose|i: int| 0 <= i < s.len() && !text::is_ascii_space(#[trigger] s[i]);
            if i < rest.len() {
                assert(!text::is_ascii_space(rest[i]));
            }
        }
        assert forall|k: int, j: int| 0 <= k < all.len() && 0 <= j < all[k].len() implies {
            &&& !text::is_ascii_space(#[trigger] all[k][j])
            &&& s.contains(all[k][j])
        } by {
            if k < before.len() && j < before[k].len() {
                assert(all[k][j] == before[k][j]);
            } else {
                assert(all[k][j] == s.last());
            }
        }
    }
}

/// A trimmed text does not start with white space.
proof fn lemma_trimmed_ends(s: Seq<char>)
    ensures
        text::trimmed(s).len() > 0 ==> !text::is_white_space(text::trimmed(s)[0])
            && !text::is_white_space(text::trimmed(s).last()),
    decreases s.len(),
{
    if s.len() > 0 && text::is_white_space(s[0]) {
        lemma_trimmed_ends(s.subrange(1, s.len() as int));
    } else if s.len() > 0 && text::is_white_space(s[s.len() - 1]) {
        lemma_trimmed_ends(s.subrange(0, s.len() - 1));
    }
}

/// A command that is run directly names a program, none of its arguments is
/// empty, and none holds shell syntax: no shell ever sees one.
pub proof fn direct_arguments_are_plain(command: Seq<char>, shell: Option<Seq<char>>, k: int)
    requires
        is_direct(command),
        0 <= k < argv(command, shell).len(),
    ensures
        argv(command, shell)[k].len() > 0,
        !has_shell_syntax(argv(command, shell)[k]),
{
    let t = text::trimmed(command);
    lemma_words(t);
    let word = text::words(t)[k];
    assert forall|j: int| 0 <= j < word.len() implies !is_shell_syntax(#[trigger] word[j]) by {
        assert(t.contains(text::words(t)[k][j]));
        let i = choose|i: int| 0 <= i < t.len() && t[i] == word[j];
        assert(!is_shell_syntax(t[i]));
    }
}

/// Every command gives a program to run.
pub proof fn every_command_names_a_program(command: Seq<char>, shell: Option<Seq<char>>)
    ensures
        argv(command, shell).len() > 0,
{
    if is_direct(command) {
        let t = text::trimmed(command);
        lemma_trimmed_ends(command);
        lemma_words(t);
        assert(!text::is_ascii_space(t[0]));
    }
}

/// A command that is not run directly is handed to the shell whole, behind
/// `-c`; the shell is the one given, or `/bin/sh`.
pub proof fn shells_get_the_whole_command(command: Seq<char>, shell: Seq<char>)
    requires
        !is_direct(command),
    ensures
        argv(command, Some(shell)).len() == 3,
        argv(command, Some(shell))[0] == shell,
        argv(command, None)[0] == "/bin/sh"@,
        argv(command, None).len() == 3,
        argv(command, Some(shell))[1] == "-c"@,
        argv(command, None)[1] == "-c"@,
        argv(command, Some(shell))[2] == command,
        argv(command, None)[2] == command,
{
}

/// White space around a command makes no difference to whether it is run
/// directly, nor to what is run then; and the shell makes none to a command
/// that needs no shell.
pub proof fn outer_white_space_does_not_matter(
    command: Seq<char>,
    shell: Option<Seq<char>>,
    other: Option<Seq<char>>,
)
    ensures
        is_direct(command) == is_direct(text::trimmed(command)),
        is_direct(command) ==> argv(command, shell) == argv(text::trimmed(command), other),
{
    lemma_trimmed_ends(command);
    let t = text::trimmed(command);
    assert(text::trimmed(t) == t);
}

/// A program followed by arguments, with white space between each two, is run
/// as that program with those arguments: a word in front of a command that is
/// run directly is in front of its arguments.
pub proof fn words_are_arguments(
    word: Seq<char>,
    command: Seq<char>,
    shell: Option<Seq<char>>,
)
    requires
        word.len() > 0,
        forall|i: int| 0 <= i < word.len() ==> !text::is_white_space(#[trigger] word[i]),
        !has_shell_syntax(word),
        is_direct(command),
    ensures
        is_direct(word.push(' ') + text::trimmed(command)),
        argv(word.push(' ') + text::trimmed(command), shell) == seq![word] + argv(command, shell),
        argv(word, shell) == seq![word],
{
    let t = text::trimmed(command);
    let all = word.push(' ') + t;
    lemma_trimmed_ends(command);
    assert(all[0] == word[0]);
    assert(all[all.len() - 1] == t.last());
    assert(text::trimmed(all) == all);
    assert forall|i: int| 0 <= i < all.len() implies !is_shell_syntax(#[trigger] all[i]) by {
        if i < word.len() {
            assert(!is_shell_syntax(word[i]));
        } else if i > word.len() {
            assert(!is_shell_syntax(t[i - word.len() - 1]));
        }
    }
    assert forall|i: int| 0 <= i < word.len() implies !text::is_ascii_space(#[trigger] word[i]) by {
        assert(!text::is_white_space(word[i]));
    }
    text::unspaced_text_is_one_word(word);
    text::white_space_parts_the_words(word, ' ', t);
    assert(!text::is_white_space(word[word.len() - 1]));
    assert(text::trimmed(word) == word);
}

/// A blank command, and one with any shell syntax inside, is left to a shell.
pub proof fn shell_syntax_needs_a_shell(before: Seq<char>, c: char, behind: Seq<char>)
    requires
        is_shell_syntax(c),
        before.len() > 0,
        behind.len() > 0,
        !text::is_white_space(before[0]),
        !text::is_white_space(behind.last()),
    ensures
        !is_direct(before.push(c) + behind),
        !is_direct(Seq::empty()),
{
    let all = before.push(c) + behind;
    assert(all[0] == before[0]);
    assert(all[all.len() - 1] == behind.last());
    assert(text::trimmed(all) == all);
    assert(all[before.len() as int] == c);
    assert(text::trimmed(Seq::<char>::empty()) == Seq::<char>::empty());
}

} // verus!
