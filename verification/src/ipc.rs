//! Commands that other programs send to a running terminal over its socket,
//! and the answers they get.
//!
//! ```text
//! optix-msg theme ayu     switch to the "ayu" theme
//! optix-msg themes        list the available themes
//! optix-msg ping          check that a terminal is running
//! optix-msg quit          quit the terminal
//! ```
use vstd::prelude::*;
use vstd::string::*;
use vstd::utf8::*;

use crate::magic::{asks_help, is_help, magic_of, MagicView};
use crate::session::{list_feedback, switch_feedback};
use crate::text::{
    ascii_lower_text, begins_with, is_white, is_word, join_path, joined_path, lemma_trimmed_again,
    lemma_trimmed_words, lemma_word_alone, lemma_words_split, opt_text, owned, same, same_ascii,
    same_ignoring_case, starts_with, texts, trim, trim_left, trim_right, trim_start, trimmed, words,
    words_of,
};

verus! {

/// A command on its way to the interface, with the number of the connection
/// that waits for the response.
#[derive(Debug, Clone, PartialEq, Eq)]
pub struct IpcRequest {
    /// Raw command line, e.g. `theme ayu`.
    pub command: String,
    /// The connection that the response goes to.
    pub reply: u64,
}

/// Commands understood over the socket, parsed by [`IpcCommand::parse`].
#[derive(Debug, Clone, PartialEq, Eq)]
pub enum IpcCommand {
    /// `ping`: reachability check.
    Ping,
    /// `theme`, `themes`, `theme help`: list the available themes.
    Themes,
    /// `theme <name>`: switch to that theme.
    ThemeSet(String),
    /// `quit`: tell the terminal to exit.
    Quit,
    /// Anything else; the line is kept so that the error response can repeat
    /// it.
    Unknown(String),
}

/// A command with the texts in it.
pub enum IpcView {
    Ping,
    Themes,
    ThemeSet(Seq<char>),
    Quit,
    Unknown(Seq<char>),
}

impl View for IpcCommand {
    type V = IpcView;

    open spec fn view(&self) -> IpcView {
        match self {
            IpcCommand::Ping => IpcView::Ping,
            IpcCommand::Themes => IpcView::Themes,
            IpcCommand::ThemeSet(name) => IpcView::ThemeSet(name@),
            IpcCommand::Quit => IpcView::Quit,
            IpcCommand::Unknown(line) => IpcView::Unknown(line@),
        }
    }
}

/// The command that a line is. Command words count in any case; `ping`, `quit`
/// and `themes` stand alone; what is not recognized is kept without the white
/// space around it.
pub open spec fn command_of(line: Seq<char>) -> IpcView {
    let parts = words(line);
    let n = parts.len();
    if n == 1 && same_ascii(parts[0], "ping"@) {
        IpcView::Ping
    } else if n == 1 && same_ascii(parts[0], "quit"@) {
        IpcView::Quit
    } else if n == 1 && same_ascii(parts[0], "themes"@) {
        IpcView::Themes
    } else if n == 1 && same_ascii(parts[0], "theme"@) {
        IpcView::Themes
    } else if n == 2 && same_ascii(parts[0], "theme"@) && asks_help(parts[1]) {
        IpcView::Themes
    } else if n == 2 && same_ascii(parts[0], "theme"@) {
        IpcView::ThemeSet(parts[1])
    } else {
        IpcView::Unknown(trimmed(line))
    }
}

impl IpcCommand {
    /// Parse a single command line. Empty lines and anything of an unexpected
    /// shape come out as [`IpcCommand::Unknown`].
    pub fn parse(line: &str) -> (r: IpcCommand)
        ensures
            r@ == command_of(line@),
    {
        let parts = words_of(line);
        let ghost all = texts(parts@);
        assert(all == words(line@));
        let n: usize = parts.len();
        if n == 0 {
            return IpcCommand::Unknown(trim(line));
        }
        assert(all[0] == parts@[0]@);
        let word = parts[0].as_str();
        if n == 1 && same_ignoring_case(word, "ping") {
            return IpcCommand::Ping;
        }
        if n == 1 && same_ignoring_case(word, "quit") {
            return IpcCommand::Quit;
        }
        if n == 1 && same_ignoring_case(word, "themes") {
            return IpcCommand::Themes;
        }
        if n == 1 && same_ignoring_case(word, "theme") {
            return IpcCommand::Themes;
        }
        if n == 2 && same_ignoring_case(word, "theme") {
            assert(all[1] == parts@[1]@);
            if is_help(parts[1].as_str()) {
                return IpcCommand::Themes;
            }
            return IpcCommand::ThemeSet(owned(parts[1].as_str()));
        }
        IpcCommand::Unknown(trim(line))
    }
}

/// What the interface does about a command.
#[derive(Debug, Clone, PartialEq, Eq)]
pub enum IpcEffect {
    /// Send a response, nothing else.
    Respond(String),
    /// List the themes; the feedback is the response.
    ListThemes,
    /// Switch to a theme; the feedback is the response.
    SetTheme(String),
    /// Quit, and send a response.
    Quit(String),
}

/// What the interface does about a command, with the texts in it.
pub enum EffectView {
    Respond(Seq<char>),
    ListThemes,
    SetTheme(Seq<char>),
    Quit(Seq<char>),
}

impl View for IpcEffect {
    type V = EffectView;

    open spec fn view(&self) -> EffectView {
        match self {
            IpcEffect::Respond(text) => EffectView::Respond(text@),
            IpcEffect::ListThemes => EffectView::ListThemes,
            IpcEffect::SetTheme(name) => EffectView::SetTheme(name@),
            IpcEffect::Quit(text) => EffectView::Quit(text@),
        }
    }
}

/// What the interface does about a command line.
pub open spec fn effect_of(line: Seq<char>) -> EffectView {
    match command_of(line) {
        IpcView::Ping => EffectView::Respond("pong"@),
        IpcView::Themes => EffectView::ListThemes,
        IpcView::ThemeSet(name) => EffectView::SetTheme(name),
        IpcView::Quit => EffectView::Quit("ok: quitting"@),
        IpcView::Unknown(text) => EffectView::Respond(
            "error: unknown command `"@ + text
                + "` (try `theme <name>`, `themes`, `ping`, `quit`)"@,
        ),
    }
}

/// Decide what to do about a command line.
pub fn execute(line: &str) -> (r: IpcEffect)
    ensures
        r@ == effect_of(line@),
{
    match IpcCommand::parse(line) {
        IpcCommand::Ping => IpcEffect::Respond(owned("pong")),
        IpcCommand::Themes => IpcEffect::ListThemes,
        IpcCommand::ThemeSet(name) => IpcEffect::SetTheme(name),
        IpcCommand::Quit => IpcEffect::Quit(owned("ok: quitting")),
        IpcCommand::Unknown(text) => {
            let mut out = owned("error: unknown command `");
            out.append(text.as_str());
            out.append("` (try `theme <name>`, `themes`, `ping`, `quit`)");
            IpcEffect::Respond(out)
        },
    }
}

/// Path of the socket: `optix/ipc.sock` in the runtime directory, or `ipc.sock`
/// in a directory of the user's own among the temporary files when there is
/// none.
pub open spec fn socket_at(
    runtime_dir: Option<Seq<char>>,
    temp_dir: Seq<char>,
    uid: Option<Seq<char>>,
) -> Seq<char> {
    let dir = if runtime_dir is Some && runtime_dir->0.len() > 0 {
        joined_path(runtime_dir->0, "optix"@)
    } else {
        joined_path(
            temp_dir,
            "optix-"@ + (match uid {
                Some(uid) => uid,
                None => "user"@,
            }),
        )
    };
    joined_path(dir, "ipc.sock"@)
}

/// Path of the socket. The terminal and its clients both take it from here, so
/// that they can never disagree.
pub fn socket_path(runtime_dir: &Option<String>, temp_dir: &str, uid: &Option<String>) -> (r:
    String)
    ensures
        r@ == socket_at(opt_text(*runtime_dir), temp_dir@, opt_text(*uid)),
{
    if let Some(runtime) = runtime_dir {
        if runtime.as_str().unicode_len() > 0 {
            let dir = join_path(runtime.as_str(), "optix");
            return join_path(dir.as_str(), "ipc.sock");
        }
    }
    let mut name = owned("optix-");
    match uid {
        Some(uid) => name.append(uid.as_str()),
        None => name.append("user"),
    }
    let dir = join_path(temp_dir, name.as_str());
    join_path(dir.as_str(), "ipc.sock")
}

/// The command in a line that a client sent; an empty line holds none.
pub fn client_command(line: &str) -> (r: Option<String>)
    ensures
        opt_text(r) == (if trimmed(line@).len() == 0 {
            None
        } else {
            Some(trimmed(line@))
        }),
{
    let command = trim(line);
    proof {
        reveal_strlit("");
        assert(command@.len() == 0 ==> command@ =~= ""@);
    }
    if same(command.as_str(), "") {
        None
    } else {
        Some(command)
    }
}

/// The text that a client gets.
pub open spec fn response_line(response: Option<Seq<char>>) -> Seq<char> {
    (match response {
        Some(text) => text,
        None => "error: no response from optix (is it still running?)"@,
    }) + "\n"@
}

/// The bytes that a client gets: the response on a line of its own, or an error
/// where the interface gave none in time.
pub fn client_response(response: &Option<String>) -> (r: Vec<u8>)
    ensures
        r@ == encode_utf8(response_line(opt_text(*response))),
{
    let mut out = match response {
        Some(text) => owned(text.as_str()),
        None => owned("error: no response from optix (is it still running?)"),
    };
    out.append("\n");
    out.into_bytes()
}

/// Words with a blank between them.
pub open spec fn joined(parts: Seq<Seq<char>>) -> Seq<char>
    decreases parts.len(),
{
    if parts.len() == 0 {
        seq![]
    } else if parts.len() == 1 {
        parts[0]
    } else {
        joined(parts.drop_last()) + " "@ + parts.last()
    }
}

/// The line that a client sends for its arguments; without any it has been used
/// wrongly.
pub fn client_line(args: &Vec<String>) -> (r: Option<String>)
    ensures
        opt_text(r) == (if args@.len() == 0 {
            None
        } else {
            Some(joined(texts(args@)) + "\n"@)
        }),
{
    if args.len() == 0 {
        return None;
    }
    let ghost all = texts(args@);
    let mut out = String::new();
    let mut i: usize = 0;
    assert(all.take(0) =~= Seq::empty());
    while i < args.len()
        invariant
            i <= args@.len(),
            all == texts(args@),
            out@ == joined(all.take(i as int)),
        decreases args@.len() - i,
    {
        proof {
            assert(all.take(i + 1).drop_last() =~= all.take(i as int));
            assert(all.take(i + 1).last() == args@[i as int]@);
        }
        if i > 0 {
            out.append(" ");
        }
        out.append(args[i].as_str());
        proof {
            if i == 0 {
                assert(all.take(1)[0] == args@[0]@);
                assert(out@ =~= args@[0]@);
            }
        }
        i += 1;
    }
    assert(all.take(i as int) =~= all);
    out.append("\n");
    Some(out)
}

/// The exit code of a client after a response.
pub open spec fn exit_of(response: Seq<char>) -> u8 {
    if begins_with(trim_left(response), "error:"@) {
        1
    } else {
        0
    }
}

/// The exit code of a client after a response: 1 for an error, 0 otherwise.
pub fn exit_code(response: &str) -> (r: u8)
    ensures
        r == exit_of(response@),
{
    let text = trim_start(response);
    if starts_with(text.as_str(), "error:") {
        1
    } else {
        0
    }
}

// ---------------------------------------------------------------------------
// Laws
// ---------------------------------------------------------------------------

/// A magic line does over the socket what it does at the prompt.
pub proof fn law_magic_lines_are_commands(line: Seq<char>)
    ensures
        magic_of(line) matches Some(magic) ==> command_of(line) == (match magic {
            MagicView::ThemeList => IpcView::Themes,
            MagicView::ThemeSet(name) => IpcView::ThemeSet(name),
        }),
{
    if magic_of(line) is Some {
        let word = words(line)[0];
        reveal_strlit("theme");
        reveal_strlit("ping");
        reveal_strlit("quit");
        reveal_strlit("themes");
        assert(ascii_lower_text(word).len() == word.len());
        assert(ascii_lower_text("theme"@).len() == 5);
        assert(ascii_lower_text("ping"@).len() == 4);
        assert(ascii_lower_text("quit"@).len() == 4);
        assert(ascii_lower_text("themes"@).len() == 6);
    }
}

/// The white space around a line does not matter to the command in it.
pub proof fn law_trimming_keeps_command(line: Seq<char>)
    ensures
        command_of(trimmed(line)) == command_of(line),
        effect_of(trimmed(line)) == effect_of(line),
{
    lemma_trimmed_words(line);
    lemma_trimmed_again(line);
}

/// The arguments of a client come out of the line that it sends as they went in,
/// where each of them is a word.
pub proof fn law_client_arguments_arrive(args: Seq<Seq<char>>)
    requires
        forall|i: int| 0 <= i < args.len() ==> is_word(#[trigger] args[i]),
    ensures
        words(joined(args) + "\n"@) == args,
{
    lemma_joined_words(args);
    reveal_strlit("\n");
    lemma_words_split(joined(args), '\n', seq![]);
    assert(joined(args) + seq!['\n'] + Seq::<char>::empty() =~= joined(args) + "\n"@);
    assert(words(seq![]) =~= seq![]);
    assert(args + Seq::<Seq<char>>::empty() =~= args);
}

/// Words with a blank between them are still those words.
proof fn lemma_joined_words(parts: Seq<Seq<char>>)
    requires
        forall|i: int| 0 <= i < parts.len() ==> is_word(#[trigger] parts[i]),
    ensures
        words(joined(parts)) == parts,
    decreases parts.len(),
{
    if parts.len() == 0 {
        assert(words(joined(parts)) =~= parts);
    } else if parts.len() == 1 {
        lemma_word_alone(parts[0]);
        assert(seq![parts[0]] =~= parts);
    } else {
        let front = parts.drop_last();
        lemma_joined_words(front);
        lemma_word_alone(parts.last());
        reveal_strlit(" ");
        lemma_words_split(joined(front), ' ', parts.last());
        assert(" "@ =~= seq![' ']);
        assert(front + seq![parts.last()] =~= parts);
    }
}

/// The exit code of a client tells whether its command failed: it is 1 for a
/// command that is not known, for a theme that is not known and where no
/// response came, and 0 for everything else that can be asked.
pub proof fn law_exit_code_tells_failure(
    line: Seq<char>,
    name: Seq<char>,
    found: bool,
    names: Seq<Seq<char>>,
)
    ensures
        exit_of(response_line(None)) == 1,
        match effect_of(line) {
            EffectView::Respond(text) => exit_of(response_line(Some(text))) == (if command_of(
                line,
            ) is Unknown {
                1u8
            } else {
                0
            }),
            EffectView::Quit(text) => exit_of(response_line(Some(text))) == 0,
            _ => true,
        },
        exit_of(response_line(Some(switch_feedback(name, found)))) == (if found {
            0u8
        } else {
            1
        }),
        exit_of(response_line(Some(list_feedback(names)))) == 0,
{
    reveal_strlit("error:");
    reveal_strlit("error: no response from optix (is it still running?)");
    reveal_strlit("error: unknown command `");
    reveal_strlit("error: unknown theme `");
    reveal_strlit("theme set to ");
    reveal_strlit("themes: ");
    reveal_strlit("pong");
    reveal_strlit("ok: quitting");
    lemma_exit(response_line(None));
    lemma_exit(response_line(Some(switch_feedback(name, found))));
    lemma_exit(response_line(Some(list_feedback(names))));
    match effect_of(line) {
        EffectView::Respond(text) => lemma_exit(response_line(Some(text))),
        EffectView::Quit(text) => lemma_exit(response_line(Some(text))),
        _ => {},
    }
}

/// The exit code after a response of six characters or more that does not start
/// with white space, or of fewer that do not start with an `e`.
proof fn lemma_exit(response: Seq<char>)
    requires
        response.len() > 0,
        !is_white(response[0]),
        response[0] != 'e' || response.len() >= 6,
    ensures
        exit_of(response) == (if response[0] == 'e' && response[1] == 'r' && response[2] == 'r'
            && response[3] == 'o' && response[4] == 'r' && response[5] == ':' {
            1u8
        } else {
            0
        }),
{
    reveal_strlit("error:");
    assert(trim_left(response) == response);
    if response.len() >= 6 {
        let head = response.take(6);
        if response[0] == 'e' && response[1] == 'r' && response[2] == 'r' && response[3] == 'o'
            && response[4] == 'r' && response[5] == ':' {
            assert(head =~= "error:"@);
        } else {
            assert(head[0] == response[0] && head[1] == response[1] && head[2] == response[2]
                && head[3] == response[3] && head[4] == response[4] && head[5] == response[5]);
        }
    }
}

/// The commands that stand alone: `ping`, `quit`, `themes` and `theme`, in any
/// case. With a word behind `theme` that does not ask for help, that theme is
/// meant. Everything else, such as a word behind one of the others, is not known
/// and kept.
pub proof fn law_commands(word: Seq<char>, name: Seq<char>, gap: char)
    requires
        is_word(word),
        is_word(name),
        is_white(gap),
    ensures
        ({
            let lower = ascii_lower_text(word);
            let two = word + seq![gap] + name;
            let ping = lower == seq!['p', 'i', 'n', 'g'];
            let quit = lower == seq!['q', 'u', 'i', 't'];
            let themes = lower == seq!['t', 'h', 'e', 'm', 'e', 's'];
            let theme = lower == seq!['t', 'h', 'e', 'm', 'e'];
            let help = ascii_lower_text(name) == seq!['h', 'e', 'l', 'p'] || name == seq!['-', 'h']
                || name == seq!['-', '-', 'h', 'e', 'l', 'p'];
            &&& command_of(word) is Ping <==> ping
            &&& command_of(word) is Quit <==> quit
            &&& command_of(word) is Themes <==> themes || theme
            &&& !ping && !quit && !themes && !theme ==> command_of(word) == IpcView::Unknown(word)
            &&& theme && !help ==> command_of(two) == IpcView::ThemeSet(name)
            &&& theme && help ==> command_of(two) is Themes
            &&& !theme ==> command_of(two) == IpcView::Unknown(two)
        }),
{
    reveal_strlit("ping");
    reveal_strlit("quit");
    reveal_strlit("themes");
    reveal_strlit("theme");
    reveal_strlit("help");
    reveal_strlit("-h");
    reveal_strlit("--help");
    assert(ascii_lower_text("ping"@) =~= seq!['p', 'i', 'n', 'g']);
    assert(ascii_lower_text("quit"@) =~= seq!['q', 'u', 'i', 't']);
    assert(ascii_lower_text("themes"@) =~= seq!['t', 'h', 'e', 'm', 'e', 's']);
    assert(ascii_lower_text("theme"@) =~= seq!['t', 'h', 'e', 'm', 'e']);
    assert(ascii_lower_text("help"@) =~= seq!['h', 'e', 'l', 'p']);
    assert("-h"@ =~= seq!['-', 'h']);
    assert("--help"@ =~= seq!['-', '-', 'h', 'e', 'l', 'p']);
    assert(seq!['p', 'i', 'n', 'g'][0] == 'p' && seq!['q', 'u', 'i', 't'][0] == 'q');
    assert(seq!['p', 'i', 'n', 'g'].len() == 4 && seq!['t', 'h', 'e', 'm', 'e'].len() == 5);
    assert(seq!['t', 'h', 'e', 'm', 'e', 's'].len() == 6 && seq!['q', 'u', 'i', 't'].len() == 4);
    let two = word + seq![gap] + name;
    lemma_word_alone(word);
    lemma_word_alone(name);
    lemma_words_split(word, gap, name);
    assert(words(two) =~= seq![word, name]);
    assert(!is_white(word[0]) && !is_white(word[word.len() - 1]));
    assert(!is_white(name[name.len() - 1]));
    assert(trim_left(word) == word && trim_right(word) == word);
    assert(two[0] == word[0] && two.last() == name.last());
    assert(trim_left(two) == two && trim_right(two) == two);
}

/// A ping is answered `pong` and quitting is announced; a command that is not
/// known is answered with an error that repeats it; the themes are listed or
/// switched to.
pub proof fn law_commands_are_carried_out(line: Seq<char>)
    ensures
        command_of(line) is Ping ==> effect_of(line) == EffectView::Respond(
            seq!['p', 'o', 'n', 'g'],
        ),
        command_of(line) is Quit ==> effect_of(line) == EffectView::Quit("ok: quitting"@),
        command_of(line) is Themes ==> effect_of(line) is ListThemes,
        command_of(line) matches IpcView::ThemeSet(name) ==> effect_of(line)
            == EffectView::SetTheme(name),
        command_of(line) matches IpcView::Unknown(text) ==> (effect_of(
            line,
        ) matches EffectView::Respond(answer) && begins_with(
            answer,
            "error: unknown command `"@ + text + seq!['`'],
        )),
{
    reveal_strlit("pong");
    assert("pong"@ =~= seq!['p', 'o', 'n', 'g']);
    if let IpcView::Unknown(text) = command_of(line) {
        reveal_strlit("` (try `theme <name>`, `themes`, `ping`, `quit`)");
        let head = "error: unknown command `"@ + text + seq!['`'];
        let answer = effect_of(line)->Respond_0;
        assert("` (try `theme <name>`, `themes`, `ping`, `quit`)"@[0] == '`');
        assert(answer.take(head.len() as int) =~= head);
    }
}

/// Commands and effects are seen as what they are, with their texts.
pub proof fn law_commands_seen_as_they_are(command: IpcCommand, effect: IpcEffect)
    ensures
        command is Ping <==> command@ is Ping,
        command is Themes <==> command@ is Themes,
        command is Quit <==> command@ is Quit,
        command matches IpcCommand::ThemeSet(name) ==> command@ == IpcView::ThemeSet(name@),
        command matches IpcCommand::Unknown(text) ==> command@ == IpcView::Unknown(text@),
        effect is ListThemes <==> effect@ is ListThemes,
        effect matches IpcEffect::Respond(text) ==> effect@ == EffectView::Respond(text@),
        effect matches IpcEffect::SetTheme(name) ==> effect@ == EffectView::SetTheme(name@),
        effect matches IpcEffect::Quit(text) ==> effect@ == EffectView::Quit(text@),
{
}

/// The socket is `optix/ipc.sock` in the runtime directory. Without one it is
/// `ipc.sock` in `optix-` and the number of the user, or `optix-user`, among the
/// temporary files.
pub proof fn law_socket_path(
    runtime: Seq<char>,
    temp: Seq<char>,
    uid: Seq<char>,
    any: Option<Seq<char>>,
)
    requires
        runtime.len() > 0 && runtime.last() != '/',
        temp.len() > 0 && temp.last() != '/',
        uid.len() > 0 && uid.last() != '/',
    ensures
        socket_at(Some(runtime), temp, any) == runtime + "/optix/ipc.sock"@,
        socket_at(None, temp, Some(uid)) == temp + "/optix-"@ + uid + "/ipc.sock"@,
        socket_at(None, temp, None) == temp + "/optix-user/ipc.sock"@,
        socket_at(Some(seq![]), temp, any) == socket_at(None, temp, any),
{
    reveal_strlit("optix");
    reveal_strlit("optix-");
    reveal_strlit("user");
    reveal_strlit("ipc.sock");
    reveal_strlit("/optix/ipc.sock");
    reveal_strlit("/optix-");
    reveal_strlit("/ipc.sock");
    reveal_strlit("/optix-user/ipc.sock");
    let own = joined_path(runtime, "optix"@);
    assert(own.last() == 'x');
    assert(joined_path(own, "ipc.sock"@) =~= runtime + "/optix/ipc.sock"@);
    let shared = joined_path(temp, "optix-"@ + uid);
    assert(shared.last() == uid.last());
    assert(joined_path(shared, "ipc.sock"@) =~= temp + "/optix-"@ + uid + "/ipc.sock"@);
    let nobody = joined_path(temp, "optix-"@ + "user"@);
    assert(nobody.last() == 'r');
    assert(joined_path(nobody, "ipc.sock"@) =~= temp + "/optix-user/ipc.sock"@);
}

/// A response ends its line, and arguments are sent with a blank between two.
pub proof fn law_lines_on_the_socket(text: Seq<char>, parts: Seq<Seq<char>>, last: Seq<char>)
    ensures
        response_line(Some(text)) == text + seq!['\n'],
        joined(seq![last]) == last,
        parts.len() > 0 ==> joined(parts.push(last)) == joined(parts) + seq![' '] + last,
{
    reveal_strlit("\n");
    reveal_strlit(" ");
    assert("\n"@ =~= seq!['\n']);
    assert(" "@ =~= seq![' ']);
    assert(parts.push(last).drop_last() =~= parts);
}

} // verus!
