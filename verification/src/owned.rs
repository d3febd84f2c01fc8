//! A command line of one command, read into a command that owns its text.
use vstd::prelude::*;
use vstd::string::*;

use crate::single::{
    arguments_from, marks_background, readable, scan_words, tokens, word_amp, word_gt, word_lt,
};
use crate::text::{pieces, same_text, split, string_views, trim, trimmed, views};

verus! {

/// One command, with the text it was read from copied into it.
pub struct SingleCommand {
    pub command: String,
    pub inputFile: String,
    pub outputFile: String,
    pub isBackground: bool,
    pub arguments: Vec<String>,
    pub commandOutput: String,
}

/// What becomes of a command's output.
pub enum OutputPlan {
    /// `exit`: the shell ends first.
    Exit,
    /// The output goes to the command's output file.
    WriteFile,
    /// The output is printed.
    Print,
    /// There is nothing to show.
    Nothing,
}

/// A copy of `s`.
fn owned(s: &str) -> (r: String)
    ensures
        r@ == s@,
{
    s.to_owned()
}

/// Reads `rawCommandText` into `currentCommand`: the first word, trimmed,
/// becomes the command, and also the input and output file; a `&` word
/// marks the command as a background job; the arguments (the words that
/// are not marks and do not follow `<` or `>`) are added to those it has.
pub fn getSingleCommand(currentCommand: &mut SingleCommand, rawCommandText: String)
    requires
        readable(rawCommandText@),
    ensures
        final(currentCommand).command@ == trimmed(tokens(rawCommandText@)[0]),
        final(currentCommand).inputFile@ == trimmed(tokens(rawCommandText@)[0]),
        final(currentCommand).outputFile@ == trimmed(tokens(rawCommandText@)[0]),
        final(currentCommand).isBackground == (old(currentCommand).isBackground
            || marks_background(tokens(rawCommandText@))),
        string_views(final(currentCommand).arguments@) == string_views(
            old(currentCommand).arguments@,
        ) + arguments_from(tokens(rawCommandText@), 1, false),
        final(currentCommand).commandOutput == old(currentCommand).commandOutput,
{
    proof {
        reveal_strlit(" ");
        assert(" "@ =~= seq![' ']);
        crate::text::law_pieces_join_back(rawCommandText@, seq![' ']);
    }
    let rawCommandSplit = split(rawCommandText.as_str(), " ");
    let command = trim(rawCommandSplit[0]);
    let words = scan_words(&rawCommandSplit);
    if words.isBackground {
        currentCommand.isBackground = true;
    }
    assert(views(rawCommandSplit@) == tokens(rawCommandText@));
    let ghost start = string_views(currentCommand.arguments@);
    for i in 0..words.arguments.len()
        invariant
            string_views(currentCommand.arguments@) == start + views(words.arguments@).take(i as int),
            currentCommand.commandOutput == old(currentCommand).commandOutput,
            currentCommand.isBackground == (old(currentCommand).isBackground
                || marks_background(tokens(rawCommandText@))),
    {
        let ghost before = currentCommand.arguments@;
        let item = owned(words.arguments[i]);
        currentCommand.arguments.push(item);
        assert(string_views(currentCommand.arguments@) =~= string_views(before).push(item@));
        assert(views(words.arguments@).take(i + 1) =~= views(words.arguments@).take(i as int).push(
            words.arguments@[i as int]@,
        ));
        assert(string_views(currentCommand.arguments@) =~= start + views(words.arguments@).take(
            i + 1,
        ));
    }
    assert(views(words.arguments@).take(words.arguments.len() as int) =~= views(
        words.arguments@,
    ));
    currentCommand.command = owned(command);
    currentCommand.inputFile = owned(command);
    currentCommand.outputFile = owned(command);
}

/// What becomes of a command's output: `exit` ends the shell; otherwise
/// the output goes to the output file if one is named, else it is printed
/// if there is any.
pub fn executeSingleCommand(currentCommand: &SingleCommand) -> (p: OutputPlan)
    ensures
        currentCommand.command@ == seq!['e', 'x', 'i', 't'] ==> p is Exit,
        currentCommand.command@ != seq!['e', 'x', 'i', 't'] ==> (if currentCommand.outputFile@.len()
            > 0 {
            p is WriteFile
        } else if currentCommand.commandOutput@.len() > 0 {
            p is Print
        } else {
            p is Nothing
        }),
{
    proof {
        reveal_strlit("exit");
        assert("exit"@ =~= seq!['e', 'x', 'i', 't']);
    }
    if same_text(currentCommand.command.as_str(), "exit") {
        OutputPlan::Exit
    } else if currentCommand.outputFile.as_str().unicode_len() > 0 {
        OutputPlan::WriteFile
    } else if currentCommand.commandOutput.as_str().unicode_len() > 0 {
        OutputPlan::Print
    } else {
        OutputPlan::Nothing
    }
}

} // verus!
