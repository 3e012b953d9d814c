//! Types used in this bot implementation.

use vstd::prelude::*;

use crate::errors::CommandParseError;
use crate::utils::find_char;
use crate::utils::find_char_in;
use crate::utils::join_strings;
use crate::utils::join_with;
use crate::utils::lemma_find_char_unique;
use crate::utils::lemma_split_on_join;
use crate::utils::split_on;

verus! {

/// What a handler needs to know about the message that carried a command:
/// the chat it came from and whether that chat is a group chat.
#[derive(Debug, Clone, Copy, PartialEq, Eq, Structural)]
pub struct MessageContext {
    /// The identifier of the originating chat; replies go back there.
    pub chat_id: i64,
    /// Whether the originating chat is a group chat.
    pub is_group: bool,
}

/// The mathematical shape of a parsed command: what [`Command::try_from`]
/// extracts from an accepted message text.
pub ghost struct CommandModel {
    /// Command name, without the leading slash and without any `@receiver`
    /// suffix.
    pub name: Seq<char>,
    /// The parameter tokens, in order.  Consecutive separator spaces yield
    /// empty tokens, which are preserved.
    pub params: Seq<Seq<char>>,
    /// The bot name the invocation was addressed to, if any was given after
    /// an `@` in the invocation token.
    pub receiver: Option<Seq<char>>,
}

/// What parsing a message text yields: `None` when the text is not a
/// command.
///
/// A command starts with the prefix character `/`.  The text is split on
/// single spaces; the first token (with the prefix stripped) is split at the
/// first `@` into the command name and an optional receiver; the remaining
/// tokens are the parameters.  An empty name is rejected.
pub open spec fn parse_spec(s: Seq<char>) -> Option<CommandModel> {
    if s.len() == 0 || s[0] != '/' {
        None
    } else {
        let sp = find_char(s, ' ');
        let invocation = s.subrange(1, sp);
        let at = find_char(invocation, '@');
        let name = invocation.take(at);
        if name.len() == 0 {
            None
        } else {
            let receiver = if at < invocation.len() {
                Some(invocation.skip(at + 1))
            } else {
                None
            };
            let params = if sp == s.len() {
                Seq::<Seq<char>>::empty()
            } else {
                split_on(s.skip(sp + 1), ' ')
            };
            Some(CommandModel { name, params, receiver })
        }
    }
}

/// A stateless command.
///
/// A command consists of a name, a list of parameters, and the optional
/// name of the bot it was addressed to.
///
/// # Example
///
/// The string
///
///     /join channel1 channel2
///
/// ...will become...
///
///     Command {
///         name: "join",
///         params: ["channel1", "channel2"],
///         receiver: None,
///     }
#[derive(Debug, Clone)]
pub struct Command {
    /// Command name, without a leading slash character.
    pub name: String,
    /// List of command parameters. May be empty.
    pub params: Vec<String>,
    /// Bot name following `@` in the invocation, if present.
    pub receiver: Option<String>,
}

impl Command {
    /// The command's value at the specification level.
    pub open spec fn model(self) -> CommandModel {
        CommandModel {
            name: self.name@,
            params: self.params.deep_view(),
            receiver: self.receiver.deep_view(),
        }
    }

    /// Parse a text message, return a command if possible.
    pub fn try_from(text: &str) -> (r: Result<Command, CommandParseError>)
        ensures
            match parse_spec(text@) {
                Some(m) => r matches Ok(c) && c.model() == m,
                None => r matches Err(CommandParseError::NoCommand),
            },
    {
        let n = text.unicode_len();

        // Verify if this is actually a command
        if n == 0 || text.get_char(0) != '/' {
            return Err(CommandParseError::NoCommand);
        }

        // The invocation token ends at the first space (or the end)
        let sp = find_char_in(text, 0, n, ' ');
        proof {
            lemma_find_char_unique(text@, ' ', sp as int);
        }

        // Split the invocation on `@`: name to the left, receiver to the
        // right
        let at = find_char_in(text, 1, sp, '@');
        let ghost invocation = text@.subrange(1, sp as int);
        proof {
            assert(forall|j: int| 0 <= j < at - 1 ==> #[trigger] invocation[j] == text@[j + 1]);
            assert(at < sp ==> invocation[at - 1] == text@[at as int]);
            lemma_find_char_unique(invocation, '@', at as int - 1);
        }

        // If the name is an empty string, it's not valid
        if at == 1 {
            return Err(CommandParseError::NoCommand);
        }
        let name = text.substring_char(1, at).to_owned();
        proof {
            assert(name@ =~= invocation.take(at as int - 1));
        }

        let receiver: Option<String> = if at < sp {
            let r = text.substring_char(at + 1, sp).to_owned();
            proof {
                assert(r@ =~= invocation.skip(at as int - 1 + 1));
            }
            Some(r)
        } else {
            None
        };

        // Parse parameters: the rest of the text, split on single spaces
        let mut params: Vec<String> = Vec::new();
        if sp < n {
            let mut pos: usize = sp + 1;
            let mut done = false;
            proof {
                assert(params.deep_view() =~= Seq::<Seq<char>>::empty());
                assert(Seq::<Seq<char>>::empty() + split_on(text@.skip(pos as int), ' ')
                    =~= split_on(text@.skip(pos as int), ' '));
            }
            while !done
                invariant
                    sp < n,
                    n == text@.len(),
                    sp < pos <= n,
                    !done ==> params.deep_view() + split_on(text@.skip(pos as int), ' ')
                        == split_on(text@.skip(sp as int + 1), ' '),
                    done ==> params.deep_view() == split_on(text@.skip(sp as int + 1), ' '),
                decreases n - pos + (if done { 0int } else { 1int }),
            {
                let j = find_char_in(text, pos, n, ' ');
                let ghost rest = text@.skip(pos as int);
                let ghost old_params = params.deep_view();
                proof {
                    assert(forall|k: int| 0 <= k < j - pos ==> #[trigger] rest[k] == text@[k
                        + pos]);
                    assert(j < n ==> rest[j - pos] == text@[j as int]);
                    lemma_find_char_unique(rest, ' ', j - pos);
                }
                let token = text.substring_char(pos, j).to_owned();
                proof {
                    assert(token@ =~= rest.take(j - pos));
                }
                params.push(token);
                proof {
                    assert(params.deep_view() =~= old_params.push(token@));
                }
                if j == n {
                    proof {
                        assert(rest.take(j - pos) =~= rest);
                        assert(split_on(rest, ' ') == seq![rest]);
                        assert(old_params + seq![rest] =~= params.deep_view());
                    }
                    done = true;
                } else {
                    proof {
                        assert(split_on(rest, ' ') == seq![rest.take(j - pos)] + split_on(
                            rest.skip(j - pos + 1), ' '));
                        assert(rest.skip(j - pos + 1) =~= text@.skip(j + 1));
                        assert(old_params + (seq![token@] + split_on(text@.skip(j + 1), ' '))
                            =~= params.deep_view() + split_on(text@.skip(j + 1), ' '));
                    }
                    pos = j + 1;
                }
            }
        }

        let cmd = Command { name, params, receiver };
        proof {
            let m = parse_spec(text@).unwrap();
            assert(cmd.model().name == m.name);
            assert(cmd.model().params =~= m.params);
            assert(cmd.model().receiver == m.receiver);
        }
        Ok(cmd)
    }

    /// The command written back out as text: the prefix, the name, a space
    /// and the parameters joined with single spaces.
    pub fn to_text(&self) -> (r: String)
        ensures
            r@ == seq!['/'] + self.name@ + seq![' '] + join_with(self.params.deep_view(), ' '),
    {
        let mut out = "/".to_owned();
        out.append(self.name.as_str());
        out.push(' ');
        let joined = join_strings(&self.params, ' ');
        out.append(joined.as_str());
        proof {
            reveal_strlit("/");
            assert("/"@ =~= seq!['/']);
            assert((("/"@ + self.name@).push(' ')) =~= "/"@ + self.name@ + seq![' ']);
        }
        out
    }
}

/// The parameter part of an invocation text: each parameter preceded by
/// one separating space.
pub open spec fn params_text(params: Seq<Seq<char>>) -> Seq<char> {
    if params.len() == 0 {
        Seq::empty()
    } else {
        seq![' '] + join_with(params, ' ')
    }
}

/// The text that invokes `name` with `params`, addressed to nobody:
/// `/<name> <p1> <p2> ...`.
pub open spec fn command_text(name: Seq<char>, params: Seq<Seq<char>>) -> Seq<char> {
    seq!['/'] + name + params_text(params)
}

/// The text that invokes `name` with `params`, addressed to `bot`:
/// `/<name>@<bot> <p1> <p2> ...`.
pub open spec fn addressed_command_text(name: Seq<char>, bot: Seq<char>, params: Seq<Seq<char>>)
    -> Seq<char> {
    seq!['/'] + name + seq!['@'] + bot + params_text(params)
}

/// Text that does not start with the prefix character is never a command.
pub proof fn lemma_not_a_command(s: Seq<char>)
    requires
        s.len() == 0 || s[0] != '/',
    ensures
        parse_spec(s) is None,
{
}

/// Parsing is the inverse of writing an invocation out: a well-formed
/// unaddressed invocation text parses to exactly its name and parameters.
pub proof fn lemma_parse_command_text(name: Seq<char>, params: Seq<Seq<char>>)
    requires
        name.len() > 0,
        forall|j: int| 0 <= j < name.len() ==> name[j] != ' ' && name[j] != '@',
        forall|i: int, j: int|
            0 <= i < params.len() && 0 <= j < params[i].len() ==> #[trigger] params[i][j] != ' ',
    ensures
        parse_spec(command_text(name, params)) == Some(
            CommandModel { name, params, receiver: None },
        ),
{
    let s = command_text(name, params);
    assert(s[0] == '/');
    if params.len() == 0 {
        assert(s =~= seq!['/'] + name);
        assert(forall|j: int| 1 <= j < s.len() ==> #[trigger] s[j] == name[j - 1]);
        lemma_find_char_unique(s, ' ', s.len() as int);
        let sp = find_char(s, ' ');
        let invocation = s.subrange(1, sp);
        assert(invocation =~= name);
        lemma_find_char_unique(invocation, '@', invocation.len() as int);
        assert(invocation.take(invocation.len() as int) =~= name);
        let m = parse_spec(s).unwrap();
        assert(m.params =~= params);
        assert(parse_spec(s) == Some(CommandModel { name, params, receiver: None }));
    } else {
        let jp = join_with(params, ' ');
        assert(s =~= seq!['/'] + name + seq![' '] + jp);
        let p0 = 1 + name.len() as int;
        assert(forall|j: int| 1 <= j < p0 ==> #[trigger] s[j] == name[j - 1]);
        assert(s[p0] == ' ');
        lemma_find_char_unique(s, ' ', p0);
        let invocation = s.subrange(1, p0);
        assert(invocation =~= name);
        lemma_find_char_unique(invocation, '@', invocation.len() as int);
        assert(invocation.take(invocation.len() as int) =~= name);
        assert(s.skip(p0 + 1) =~= jp);
        lemma_split_on_join(params, ' ');
        assert(parse_spec(s) == Some(CommandModel { name, params, receiver: None }));
    }
}

/// A well-formed invocation text addressed to `bot` parses to the same
/// name and parameters, with `bot` as the receiver.
pub proof fn lemma_parse_addressed_command_text(
    name: Seq<char>,
    bot: Seq<char>,
    params: Seq<Seq<char>>,
)
    requires
        name.len() > 0,
        forall|j: int| 0 <= j < name.len() ==> name[j] != ' ' && name[j] != '@',
        forall|j: int| 0 <= j < bot.len() ==> bot[j] != ' ',
        forall|i: int, j: int|
            0 <= i < params.len() && 0 <= j < params[i].len() ==> #[trigger] params[i][j] != ' ',
    ensures
        parse_spec(addressed_command_text(name, bot, params)) == Some(
            CommandModel { name, params, receiver: Some(bot) },
        ),
{
    let s = addressed_command_text(name, bot, params);
    let head = seq!['/'] + name + seq!['@'] + bot;
    let sp = head.len() as int;
    assert(s =~= head + params_text(params));
    assert(s[0] == '/');
    assert(forall|j: int| 1 <= j < 1 + name.len() ==> #[trigger] s[j] == name[j - 1]);
    assert(s[1 + name.len() as int] == '@');
    assert(forall|j: int|
        2 + name.len() <= j < sp ==> #[trigger] s[j] == bot[j - 2 - name.len()]);
    if params.len() == 0 {
        assert(s =~= head);
        lemma_find_char_unique(s, ' ', s.len() as int);
    } else {
        assert(s[sp] == ' ');
        lemma_find_char_unique(s, ' ', sp);
    }
    let invocation = s.subrange(1, sp);
    assert(invocation =~= name + seq!['@'] + bot);
    assert(forall|j: int| 0 <= j < name.len() ==> #[trigger] invocation[j] == name[j]);
    assert(invocation[name.len() as int] == '@');
    lemma_find_char_unique(invocation, '@', name.len() as int);
    assert(invocation.take(name.len() as int) =~= name);
    assert(invocation.skip(name.len() as int + 1) =~= bot);
    if params.len() == 0 {
        let m = parse_spec(s).unwrap();
        assert(m.params =~= params);
    } else {
        let jp = join_with(params, ' ');
        assert(s.skip(sp + 1) =~= jp);
        lemma_split_on_join(params, ' ');
    }
    assert(parse_spec(s) == Some(CommandModel { name, params, receiver: Some(bot) }));
}

} // verus!
