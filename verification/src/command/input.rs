//! What a line of input asks for.

use crate::chars;
use crate::input;
use vstd::prelude::*;

verus! {

#[derive(Debug, PartialEq, Eq)]
pub enum InputIntent {
    UserText(String),
    Slash(SlashInvocation),
}

/// A command by its name, with its arguments.
#[derive(Debug, PartialEq, Eq)]
pub struct SlashInvocation {
    pub name: String,
    pub args: String,
}

/// What input asks for, with its texts.
pub enum IntentView {
    UserText(Seq<char>),
    Slash { name: Seq<char>, args: Seq<char> },
}

impl View for InputIntent {
    type V = IntentView;

    open spec fn view(&self) -> IntentView {
        match self {
            InputIntent::UserText(text) => IntentView::UserText(text@),
            InputIntent::Slash(slash) => IntentView::Slash {
                name: slash.name@,
                args: slash.args@,
            },
        }
    }
}

/// A text without the white space at its start.
pub open spec fn trimmed_start(text: Seq<char>) -> Seq<char> {
    text.skip(chars::leading(text, |c: char| chars::is_white_space(c)) as int)
}

/// The command that stands behind a slash: its name up to the first white space, and what follows.
pub open spec fn invocation(rest: Seq<char>) -> IntentView {
    let len = chars::leading(rest, |c: char| !chars::is_white_space(c)) as int;
    IntentView::Slash {
        name: rest.take(len),
        args: if len < rest.len() {
            trimmed_start(rest.skip(len + 1))
        } else {
            Seq::empty()
        },
    }
}

/// What input asks for. Blank input asks for nothing; input that starts with a slash is a command,
/// unless the slash is doubled, which makes it text that starts with one.
pub open spec fn intent(text: Seq<char>) -> Option<IntentView> {
    if input::is_blank(text) {
        None
    } else if text.len() > 1 && text[0] == '/' && text[1] == '/' {
        Some(IntentView::UserText(text.skip(1)))
    } else if text[0] == '/' {
        Some(invocation(text.skip(1)))
    } else {
        Some(IntentView::UserText(text))
    }
}

/// The number of characters from `from` on up to the first one that is, or is not, white space.
fn run_len(text: &Vec<char>, from: usize, white: bool) -> (len: usize)
    requires
        from <= text@.len(),
    ensures
        white ==> len == chars::leading(
            text@.skip(from as int),
            |c: char| chars::is_white_space(c),
        ),
        !white ==> len == chars::leading(
            text@.skip(from as int),
            |c: char| !chars::is_white_space(c),
        ),
        from + len <= text@.len(),
{
    let ghost rest = text@.skip(from as int);
    let ghost matching = if white {
        |c: char| chars::is_white_space(c)
    } else {
        |c: char| !chars::is_white_space(c)
    };
    let mut i: usize = from;
    while i < text.len() && text[i].is_whitespace() == white
        invariant
            from <= i <= text@.len(),
            rest == text@.skip(from as int),
            forall|c: char| #[trigger] matching(c) == (chars::is_white_space(c) == white),
            chars::leading(rest, matching) == (i - from) + chars::leading(
                text@.skip(i as int),
                matching,
            ),
        decreases text@.len() - i,
    {
        assert(matching(text@[i as int]));
        assert(text@.skip(i as int)[0] == text@[i as int]);
        assert(text@.skip(i as int).drop_first() =~= text@.skip(i + 1));
        i = i + 1;
    }
    assert(chars::leading(rest, matching) == i - from) by {
        if i < text@.len() {
            assert(text@.skip(i as int)[0] == text@[i as int]);
            assert(!matching(text@[i as int]));
        }
    }
    i - from
}

pub fn parse_input(text: &str) -> (asked: Option<InputIntent>)
    ensures
        match asked {
            Some(asked) => intent(text@) == Some(asked@),
            None => intent(text@) is None,
        },
{
    if input::blank(text) {
        return None;
    }
    let characters = chars::chars_of(text);
    proof {
        if characters@.len() == 0 {
            assert(input::is_blank(text@));
        }
    }
    let len: usize = characters.len();
    if len > 1 && characters[0] == '/' && characters[1] == '/' {
        let rest = chars::text_of(characters.as_slice(), 1, len);
        assert(rest@ =~= text@.skip(1));
        return Some(InputIntent::UserText(rest));
    }
    if characters[0] != '/' {
        return Some(InputIntent::UserText(text.to_owned()));
    }
    let ghost rest = text@.skip(1);
    let name_len: usize = run_len(&characters, 1, false);
    let name_end: usize = 1 + name_len;
    let name = chars::text_of(characters.as_slice(), 1, name_end);
    assert(name@ =~= rest.take(name_len as int));
    let args = if name_end < len {
        let skipped: usize = run_len(&characters, name_end + 1, true);
        let args = chars::text_of(characters.as_slice(), name_end + 1 + skipped, len);
        assert(rest.skip(name_len + 1) =~= text@.skip(name_end + 1));
        assert(args@ =~= trimmed_start(rest.skip(name_len + 1)));
        args
    } else {
        String::new()
    };
    assert(args@ =~= invocation(rest)->args);
    Some(InputIntent::Slash(SlashInvocation { name, args }))
}

/// Text with a slash put in front of it is read as that text again, where it starts with a slash.
pub proof fn law_doubled_slash_is_text(text: Seq<char>)
    requires
        text.len() > 0,
        text[0] == '/',
    ensures
        intent(seq!['/'] + text) == Some(IntentView::UserText(text)),
{
    let doubled = seq!['/'] + text;
    assert(doubled.skip(1) =~= text);
    assert(doubled[0] == '/' && doubled[1] == '/');
    assert(!chars::is_white_space(doubled[0]));
}

proof fn lemma_leading_run(text: Seq<char>, run: nat, inside: spec_fn(char) -> bool)
    requires
        run <= text.len(),
        forall|i: int| 0 <= i < run ==> inside(#[trigger] text[i]),
        run < text.len() ==> !inside(text[run as int]),
    ensures
        chars::leading(text, inside) == run,
    decreases text.len(),
{
    if run > 0 {
        let rest = text.drop_first();
        assert forall|i: int| 0 <= i < run - 1 implies inside(#[trigger] rest[i]) by {
            assert(rest[i] == text[i + 1]);
        }
        lemma_leading_run(rest, (run - 1) as nat, inside);
    }
}

/// Input that is not blank and does not start with a slash is text, and stays as it is.
pub proof fn law_text_stays_as_it_is(text: Seq<char>, at: int)
    requires
        0 <= at < text.len(),
        !chars::is_white_space(text[at]),
        text[0] != '/',
    ensures
        intent(text) == Some(IntentView::UserText(text)),
{
}

/// Blank input asks for nothing.
pub proof fn law_blank_input_asks_for_nothing(text: Seq<char>)
    requires
        forall|i: int| 0 <= i < text.len() ==> chars::is_white_space(#[trigger] text[i]),
    ensures
        intent(text) is None,
{
}

/// A slash and a name ask for the command with that name. What stands behind the name and white space
/// are its arguments; white space behind them belongs to them.
pub proof fn law_commands_are_read(name: Seq<char>, space: Seq<char>, args: Seq<char>)
    requires
        name.len() == 0 || name[0] != '/',
        forall|i: int| 0 <= i < name.len() ==> !chars::is_white_space(#[trigger] name[i]),
        space.len() > 0,
        forall|i: int| 0 <= i < space.len() ==> chars::is_white_space(#[trigger] space[i]),
        args.len() > 0 ==> !chars::is_white_space(args[0]),
    ensures
        intent(seq!['/'] + name) == Some(IntentView::Slash { name, args: Seq::empty() }),
        intent(seq!['/'] + name + space + args) == Some(IntentView::Slash { name, args }),
{
    let outside = |c: char| !chars::is_white_space(c);
    let white = |c: char| chars::is_white_space(c);
    assert(!chars::is_white_space('/'));
    let plain = seq!['/'] + name;
    assert(plain[0] == '/');
    assert(plain.skip(1) =~= name);
    lemma_leading_run(name, name.len(), outside);
    assert(name.take(name.len() as int) =~= name);
    if name.len() > 0 {
        assert(plain[1] == name[0]);
    }
    let whole = seq!['/'] + name + space + args;
    let rest = name + space + args;
    assert(whole[0] == '/');
    assert(whole.skip(1) =~= rest);
    if name.len() > 0 {
        assert(whole[1] == name[0]);
    } else {
        assert(whole[1] == space[0]);
    }
    assert forall|i: int| 0 <= i < name.len() implies outside(#[trigger] rest[i]) by {
        assert(rest[i] == name[i]);
    }
    assert(rest[name.len() as int] == space[0]);
    lemma_leading_run(rest, name.len(), outside);
    assert(rest.take(name.len() as int) =~= name);
    let behind = rest.skip(name.len() as int + 1);
    let run = (space.len() - 1) as nat;
    assert forall|i: int| 0 <= i < run implies white(#[trigger] behind[i]) by {
        assert(behind[i] == space[i + 1]);
    }
    if args.len() > 0 {
        assert(behind[run as int] == args[0]);
    }
    lemma_leading_run(behind, run, white);
    assert(behind.skip(run as int) =~= args);
}

} // verus!
