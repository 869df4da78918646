//! The command line that starts an agent on a task.
use vstd::prelude::*;
use vstd::string::*;
use vstd::utf8::*;

use crate::order::same_bytes;
use crate::outside;
use crate::outside::lossy_text_of;
use crate::path;
use crate::path::LocalPath;
use crate::task::{AgentKind, TaskQueueError, TaskQueueErrorView};
use crate::text::chars_of;
use crate::views;

verus! {

/// A text as it stands between single quotes: a single quote in it closes them,
/// follows a backslash, and opens them again.
pub open spec fn quoted_chars(value: Seq<char>) -> Seq<char>
    decreases value.len(),
{
    if value.len() == 0 {
        Seq::empty()
    } else if value[0] == '\'' {
        seq!['\'', '\\', '\'', '\''] + quoted_chars(value.skip(1))
    } else {
        seq![value[0]] + quoted_chars(value.skip(1))
    }
}

/// One argument for a POSIX shell.
pub open spec fn shell_quoted(value: Seq<char>) -> Seq<char> {
    seq!['\''] + quoted_chars(value) + seq!['\'']
}

/// Quotes one argument for a POSIX shell with single quotes.
pub fn shell_quote(value: &str) -> (quoted: String)
    ensures
        quoted@ == shell_quoted(value@),
{
    let chars = chars_of(value);
    let mut quoted = String::new();
    quoted.push('\'');
    let mut i: usize = 0;
    assert(chars@.skip(0) =~= chars@);
    assert(quoted@ + quoted_chars(chars@) =~= seq!['\''] + quoted_chars(chars@));
    while i < chars.len()
        invariant
            i <= chars@.len(),
            quoted@ + quoted_chars(chars@.skip(i as int)) == seq!['\''] + quoted_chars(chars@),
        decreases chars@.len() - i,
    {
        let c = chars[i];
        let ghost before = quoted@;
        let ghost rest = chars@.skip(i as int);
        assert(rest.skip(1) =~= chars@.skip(i + 1));
        if c == '\'' {
            quoted.push('\'');
            quoted.push('\\');
            quoted.push('\'');
            quoted.push('\'');
            assert(quoted@ =~= before + seq!['\'', '\\', '\'', '\'']);
        } else {
            quoted.push(c);
            assert(quoted@ =~= before + seq![c]);
        }
        assert(quoted@ + quoted_chars(rest.skip(1)) =~= before + quoted_chars(rest));
        i += 1;
    }
    assert(quoted@ =~= seq!['\''] + quoted_chars(chars@));
    quoted.push('\'');
    assert(quoted@ =~= shell_quoted(value@));
    quoted
}

/// What a POSIX shell reads as one word from text that consists of parts between
/// single quotes, taken as they are, and characters after a backslash; `None`
/// for any other text.
pub open spec fn shell_word(text: Seq<char>, in_quotes: bool) -> Option<Seq<char>>
    decreases text.len(),
{
    if text.len() == 0 {
        if in_quotes {
            None
        } else {
            Some(Seq::empty())
        }
    } else if text[0] == '\'' {
        shell_word(text.skip(1), !in_quotes)
    } else if in_quotes {
        match shell_word(text.skip(1), true) {
            Some(rest) => Some(seq![text[0]] + rest),
            None => None,
        }
    } else if text[0] == '\\' && text.len() > 1 {
        match shell_word(text.skip(2), false) {
            Some(rest) => Some(seq![text[1]] + rest),
            None => None,
        }
    } else {
        None
    }
}

proof fn lemma_quoted_chars_read(value: Seq<char>)
    ensures
        shell_word(quoted_chars(value) + seq!['\''], true) == Some(value),
    decreases value.len(),
{
    let text = quoted_chars(value) + seq!['\''];
    if value.len() == 0 {
        assert(text =~= seq!['\'']);
        assert(text.skip(1) =~= Seq::empty());
        assert(shell_word(text.skip(1), false) == Some(Seq::<char>::empty()));
        assert(value =~= Seq::empty());
    } else {
        lemma_quoted_chars_read(value.skip(1));
        let rest = quoted_chars(value.skip(1)) + seq!['\''];
        assert(seq![value[0]] + value.skip(1) =~= value);
        if value[0] == '\'' {
            assert(text =~= seq!['\'', '\\', '\'', '\''] + rest);
            let a = text.skip(1);
            assert(a =~= seq!['\\', '\'', '\''] + rest);
            let b = a.skip(2);
            assert(b =~= seq!['\''] + rest);
            assert(b.skip(1) =~= rest);
            assert(shell_word(b, false) == shell_word(rest, true));
            assert(shell_word(a, false) == Some(seq!['\''] + value.skip(1)));
        } else {
            assert(text =~= seq![value[0]] + rest);
            assert(text.skip(1) =~= rest);
        }
    }
}

/// A POSIX shell reads a quoted argument as one word: the argument itself.
pub proof fn law_shell_reads_back(value: Seq<char>)
    ensures
        shell_word(shell_quoted(value), false) == Some(value),
{
    lemma_quoted_chars_read(value);
    let text = shell_quoted(value);
    assert(text.skip(1) =~= quoted_chars(value) + seq!['\'']);
}

/// The prompt that an agent is started with.
pub open spec fn launch_prompt(task_markdown: Seq<u8>) -> Seq<char> {
    "Lee y ejecuta la tarea en "@ + outside::shown_text(task_markdown) + ", incluidos sus adjuntos."@
}

/// The command line that starts an agent on the task in a Markdown file, whose
/// path must be absolute and end in `task.md`.
pub open spec fn launch_command(agent: AgentKind, task_markdown: Seq<u8>) -> Result<
    Seq<char>,
    TaskQueueErrorView,
> {
    if !path::is_absolute(task_markdown) {
        Err(TaskQueueErrorView::RelativeTaskMarkdownPath(task_markdown))
    } else if path::file_name(task_markdown) != Some(encode_utf8("task.md"@)) {
        Err(TaskQueueErrorView::InvalidTaskMarkdownPath(task_markdown))
    } else {
        Ok(
            agent.wrapper_name_spec() + seq![' '] + shell_quoted(launch_prompt(task_markdown)),
        )
    }
}

/// The command line that starts an agent on the task in a Markdown file.
pub fn build_launch_command(agent: AgentKind, task_markdown: &LocalPath) -> (command: Result<
    String,
    TaskQueueError,
>)
    ensures
        views::result_view(command) == launch_command(agent, task_markdown@),
{
    if !task_markdown.is_absolute() {
        return Err(TaskQueueError::RelativeTaskMarkdownPath(task_markdown.clone()));
    }
    if !ends_in_task_file(task_markdown) {
        return Err(TaskQueueError::InvalidTaskMarkdownPath(task_markdown.clone()));
    }
    let mut prompt = "Lee y ejecuta la tarea en ".to_owned();
    prompt.append(lossy_text_of(task_markdown.as_bytes()).as_str());
    prompt.append(", incluidos sus adjuntos.");
    let mut command = agent.wrapper_name().to_owned();
    command.push(' ');
    command.append(shell_quote(prompt.as_str()).as_str());
    assert(agent.wrapper_name_spec().push(' ') =~= agent.wrapper_name_spec() + seq![' ']);
    Ok(command)
}

fn ends_in_task_file(path: &LocalPath) -> (named: bool)
    ensures
        named == (path::file_name(path@) == Some(encode_utf8("task.md"@))),
{
    match path.file_name() {
        Some(name) => same_bytes(name.as_slice(), "task.md".as_bytes()),
        None => false,
    }
}

/// An agent is started on a task exactly where the path of the task file is absolute
/// and ends in `task.md`. The command is the one of the agent, followed by one word
/// for the shell, which says where the task is.
pub proof fn law_launch_command(agent: AgentKind, task_markdown: Seq<u8>)
    ensures
        match launch_command(agent, task_markdown) {
            Ok(command) => path::is_absolute(task_markdown) && path::file_name(task_markdown)
                == Some(encode_utf8("task.md"@)) && exists|word: Seq<char>|
                command == (match agent {
                    AgentKind::Codex => "codexauto"@,
                    AgentKind::ClaudeCode => "claudeauto"@,
                }) + seq![' '] + word && #[trigger] shell_word(word, false) == Some(
                    "Lee y ejecuta la tarea en "@ + outside::shown_text(task_markdown)
                        + ", incluidos sus adjuntos."@,
                ),
            Err(TaskQueueErrorView::RelativeTaskMarkdownPath(path)) => path == task_markdown
                && !path::is_absolute(task_markdown),
            Err(TaskQueueErrorView::InvalidTaskMarkdownPath(path)) => path == task_markdown
                && path::is_absolute(task_markdown) && path::file_name(task_markdown) != Some(
                encode_utf8("task.md"@),
            ),
            _ => false,
        },
{
    if launch_command(agent, task_markdown) is Ok {
        let word = shell_quoted(launch_prompt(task_markdown));
        law_shell_reads_back(launch_prompt(task_markdown));
        assert(launch_command(agent, task_markdown)->Ok_0 == (match agent {
            AgentKind::Codex => "codexauto"@,
            AgentKind::ClaudeCode => "claudeauto"@,
        }) + seq![' '] + word);
    }
}

/// A task file in a folder with an absolute path can be handed to an agent, and
/// different task files are told apart, as are different agents.
pub proof fn law_task_files_can_be_launched(agent: AgentKind, folder: Seq<u8>)
    requires
        path::is_absolute(folder),
        path::open_stem(folder),
    ensures
        launch_command(agent, path::join(folder, encode_utf8("task.md"@))) is Ok,
        launch_command(AgentKind::Codex, path::join(folder, encode_utf8("task.md"@)))
            != launch_command(AgentKind::ClaudeCode, path::join(folder, encode_utf8("task.md"@))),
{
    crate::creation_scope::lemma_fixed_names_are_safe();
    crate::attachment::lemma_safe_is_proper("task.md"@);
    path::law_joined_name(folder, encode_utf8("task.md"@));
    let file = path::join(folder, encode_utf8("task.md"@));
    let one = launch_command(AgentKind::Codex, file)->Ok_0;
    let other = launch_command(AgentKind::ClaudeCode, file)->Ok_0;
    reveal_strlit("codexauto");
    reveal_strlit("claudeauto");
    assert(one[1] == 'o');
    assert(other[1] == 'l');
}

} // verus!
