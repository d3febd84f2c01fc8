//! A command line of one command: its words between single spaces, with a
//! `&` word for a background job and `<` / `>` words before the input and
//! output file. The command's fields borrow from the line.
use vstd::prelude::*;
use vstd::string::*;

use crate::number::decimal;
use crate::number::decimal_string;
use crate::text::{pieces, push_str, same_text, split, trim, trimmed, views};

verus! {

/// One command, parsed from a line.
pub struct singleCommand<'a> {
    pub command: &'a str,
    pub inputFile: &'a str,
    pub outputFile: &'a str,
    pub isBackground: bool,
    pub arguments: Vec<&'a str>,
    pub commandOutput: String,
}

/// What the shell does for a command of one word and its arguments.
pub enum BasicAction<'a> {
    /// `exit`: the shell ends.
    Exit,
    /// `pwd`: prints the working directory.
    Pwd,
    /// `history`: prints the lines typed so far.
    History,
    /// `cd`: changes to the first argument, if there is one.
    Cd(Option<&'a str>),
    /// Anything else: "Unsupported command".
    Unsupported,
}

// ---------------------------------------------------------------------------
// Specification
// ---------------------------------------------------------------------------

pub open spec fn word_amp() -> Seq<char> {
    seq!['&']
}

pub open spec fn word_lt() -> Seq<char> {
    seq!['<']
}

pub open spec fn word_gt() -> Seq<char> {
    seq!['>']
}

/// The words of a line: its pieces between single spaces.
pub open spec fn tokens(line: Seq<char>) -> Seq<Seq<char>> {
    pieces(line, seq![' '])
}

/// The arguments among the words from position `i` on: every word that is
/// not `&`, `<` or `>` and does not follow a `<` or `>` (with only such
/// marks between), trimmed; `skip` says that the word at `i` follows one.
pub open spec fn arguments_from(toks: Seq<Seq<char>>, i: int, skip: bool) -> Seq<Seq<char>>
    decreases toks.len() - i,
{
    if i < 0 || i >= toks.len() {
        Seq::empty()
    } else {
        let t = toks[i];
        if t == word_amp() {
            arguments_from(toks, i + 1, skip)
        } else if t == word_lt() || t == word_gt() {
            arguments_from(toks, i + 1, true)
        } else if !skip {
            seq![trimmed(t)] + arguments_from(toks, i + 1, false)
        } else {
            arguments_from(toks, i + 1, false)
        }
    }
}

/// The word after the last `mark` at position `i` or later, trimmed; `acc`
/// if there is none.
pub open spec fn target_from(toks: Seq<Seq<char>>, i: int, mark: Seq<char>, acc: Seq<char>) -> Seq<
    char,
>
    decreases toks.len() - i,
{
    if i < 0 || i >= toks.len() {
        acc
    } else if toks[i] == mark {
        target_from(toks, i + 1, mark, trimmed(toks[i + 1]))
    } else {
        target_from(toks, i + 1, mark, acc)
    }
}

/// Some word after the first and before position `n` is `&`.
pub open spec fn amp_before(toks: Seq<Seq<char>>, n: int) -> bool {
    exists|i: int| 1 <= i < n && i < toks.len() && #[trigger] toks[i] == word_amp()
}

/// Some word after the first is `&`.
pub open spec fn marks_background(toks: Seq<Seq<char>>) -> bool {
    amp_before(toks, toks.len() as int)
}

/// The line can be read: its last word, if it is not the first, is not a
/// `<` or `>` that would need a file name after it.
pub open spec fn readable(line: Seq<char>) -> bool {
    let toks = tokens(line);
    toks.len() >= 2 ==> toks.last() != word_lt() && toks.last() != word_gt()
}

/// What the line becomes as one command.
pub open spec fn single_command_of(c: singleCommand, line: Seq<char>) -> bool {
    let toks = tokens(line);
    &&& c.command@ == trimmed(toks[0])
    &&& c.isBackground == marks_background(toks)
    &&& views(c.arguments@) == arguments_from(toks, 1, false)
    &&& c.inputFile@ == target_from(toks, 1, word_lt(), Seq::empty())
    &&& c.outputFile@ == target_from(toks, 1, word_gt(), Seq::empty())
    &&& c.commandOutput@ == Seq::<char>::empty()
}

/// The line that lists entry `k` (from 1) of the history: two spaces, the
/// number, two spaces, the line.
pub open spec fn listing_line(k: nat, line: Seq<char>) -> Seq<char> {
    seq![' ', ' '] + decimal(k) + seq![' ', ' '] + line + seq!['\n']
}

/// The lines that list a history.
pub open spec fn listing(hist: Seq<Seq<char>>) -> Seq<char>
    decreases hist.len(),
{
    if hist.len() == 0 {
        Seq::empty()
    } else {
        listing(hist.drop_last()) + listing_line(hist.len(), hist.last())
    }
}

/// The arguments after a `&` added at the end are those before it.
proof fn lemma_arguments_with_mark(ts: Seq<Seq<char>>, i: int, skip: bool)
    requires
        0 <= i <= ts.len(),
    ensures
        arguments_from(ts.push(word_amp()), i, skip) == arguments_from(ts, i, skip),
    decreases ts.len() - i,
{
    let u = ts.push(word_amp());
    if i < ts.len() {
        assert(u[i] == ts[i]);
        lemma_arguments_with_mark(ts, i + 1, true);
        lemma_arguments_with_mark(ts, i + 1, false);
        lemma_arguments_with_mark(ts, i + 1, skip);
    } else {
        assert(u[i] == word_amp());
        assert(arguments_from(u, i + 1, skip) == Seq::<Seq<char>>::empty());
    }
}

/// The file named after `mark` is the same with a `&` added at the end.
proof fn lemma_target_with_mark(ts: Seq<Seq<char>>, i: int, mark: Seq<char>, acc: Seq<char>)
    requires
        0 <= i <= ts.len(),
        mark != word_amp(),
        forall|j: int| i <= j < ts.len() && ts[j] == mark ==> j + 1 < ts.len(),
    ensures
        target_from(ts.push(word_amp()), i, mark, acc) == target_from(ts, i, mark, acc),
    decreases ts.len() - i,
{
    let u = ts.push(word_amp());
    if i < ts.len() {
        assert(u[i] == ts[i]);
        if ts[i] == mark {
            assert(u[i + 1] == ts[i + 1]);
            lemma_target_with_mark(ts, i + 1, mark, trimmed(ts[i + 1]));
        } else {
            lemma_target_with_mark(ts, i + 1, mark, acc);
        }
    } else {
        assert(u[i] == word_amp());
        assert(target_from(u, i + 1, mark, acc) == acc);
    }
}

/// Law: marking a readable line as a background job, by adding ` &` at its
/// end, keeps its command, arguments and files, sets the background mark,
/// and leaves it readable.
pub proof fn law_background_mark_keeps_command(s: Seq<char>)
    requires
        readable(s),
    ensures
        readable(s + seq![' ', '&']),
        trimmed(tokens(s + seq![' ', '&'])[0]) == trimmed(tokens(s)[0]),
        marks_background(tokens(s + seq![' ', '&'])),
        arguments_from(tokens(s + seq![' ', '&']), 1, false) == arguments_from(tokens(s), 1, false),
        target_from(tokens(s + seq![' ', '&']), 1, word_lt(), Seq::empty()) == target_from(
            tokens(s),
            1,
            word_lt(),
            Seq::empty(),
        ),
        target_from(tokens(s + seq![' ', '&']), 1, word_gt(), Seq::empty()) == target_from(
            tokens(s),
            1,
            word_gt(),
            Seq::empty(),
        ),
{
    let ts = tokens(s);
    let amp = word_amp();
    assert(s + seq![' ', '&'] =~= s + seq![' '] + amp);
    crate::text::lemma_pieces_around_separator(s, ' ', amp);
    crate::text::lemma_pieces_without_separator(amp, ' ');
    crate::text::law_pieces_join_back(s, seq![' ']);
    let u = tokens(s + seq![' ', '&']);
    assert(u =~= ts.push(amp));
    assert(u[0] == ts[0]);
    assert(u[ts.len() as int] == amp);
    assert(amp_before(u, u.len() as int));
    lemma_arguments_with_mark(ts, 1, false);
    assert(word_lt() != amp) by {
        assert(word_lt()[0] != amp[0]);
    }
    assert(word_gt() != amp) by {
        assert(word_gt()[0] != amp[0]);
    }
    assert forall|j: int| 1 <= j < ts.len() && ts[j] == word_lt() implies j + 1 < ts.len() by {
        if j + 1 == ts.len() {
            assert(ts.last() == ts[j]);
        }
    }
    assert forall|j: int| 1 <= j < ts.len() && ts[j] == word_gt() implies j + 1 < ts.len() by {
        if j + 1 == ts.len() {
            assert(ts.last() == ts[j]);
        }
    }
    lemma_target_with_mark(ts, 1, word_lt(), Seq::empty());
    lemma_target_with_mark(ts, 1, word_gt(), Seq::empty());
    assert(u.last() == amp);
}

/// Over words that are no marks, every word is an argument and no file is
/// named.
proof fn lemma_plain_words(ts: Seq<Seq<char>>, i: int, acc: Seq<char>)
    requires
        0 <= i <= ts.len(),
        forall|j: int|
            i <= j < ts.len() ==> #[trigger] ts[j] != seq!['&'] && ts[j] != seq!['<'] && ts[j] != seq![
                '>',
            ],
    ensures
        arguments_from(ts, i, false) == ts.skip(i).map_values(|w: Seq<char>| trimmed(w)),
        target_from(ts, i, word_lt(), acc) == acc,
        target_from(ts, i, word_gt(), acc) == acc,
    decreases ts.len() - i,
{
    if i < ts.len() {
        lemma_plain_words(ts, i + 1, acc);
        assert(ts[i] != word_amp() && ts[i] != word_lt() && ts[i] != word_gt());
        assert(ts.skip(i).map_values(|w: Seq<char>| trimmed(w)) =~= seq![trimmed(ts[i])] + ts.skip(
            i + 1,
        ).map_values(|w: Seq<char>| trimmed(w)));
    } else {
        assert(ts.skip(i).map_values(|w: Seq<char>| trimmed(w)) =~= Seq::<Seq<char>>::empty());
    }
}

/// Law: in a line whose words after the first are none of `&`, `<` and
/// `>`, every word after the first is an argument, trimmed, in order; no
/// file is named and the command is no background job.
pub proof fn law_plain_words_are_arguments(line: Seq<char>)
    requires
        forall|j: int|
            1 <= j < tokens(line).len() ==> #[trigger] tokens(line)[j] != seq!['&'] && tokens(line)[j]
                != seq!['<'] && tokens(line)[j] != seq!['>'],
    ensures
        arguments_from(tokens(line), 1, false) == tokens(line).skip(1).map_values(
            |w: Seq<char>| trimmed(w),
        ),
        target_from(tokens(line), 1, word_lt(), Seq::empty()) == Seq::<char>::empty(),
        target_from(tokens(line), 1, word_gt(), Seq::empty()) == Seq::<char>::empty(),
        !marks_background(tokens(line)),
{
    crate::text::law_pieces_join_back(line, seq![' ']);
    lemma_plain_words(tokens(line), 1, Seq::empty());
}

/// The file named after the last `mark`, read from position `j` on.
proof fn lemma_target_is(ts: Seq<Seq<char>>, j: int, mark: Seq<char>, acc: Seq<char>, i: int)
    requires
        0 <= j,
        0 <= i,
        i + 1 < ts.len(),
        ts[i] == mark,
        forall|k: int| i < k < ts.len() ==> #[trigger] ts[k] != mark,
    ensures
        target_from(ts, j, mark, acc) == if j <= i {
            trimmed(ts[i + 1])
        } else {
            acc
        },
    decreases ts.len() - j,
{
    if j < ts.len() {
        if ts[j] == mark {
            lemma_target_is(ts, j + 1, mark, trimmed(ts[j + 1]), i);
        } else {
            lemma_target_is(ts, j + 1, mark, acc, i);
        }
    }
}

/// Law: the input file is the word after the last `<` word, trimmed, and
/// the output file the word after the last `>` word, trimmed.
pub proof fn law_file_follows_mark(line: Seq<char>, i: int)
    requires
        1 <= i,
        i + 1 < tokens(line).len(),
    ensures
        tokens(line)[i] == seq!['<'] && (forall|k: int|
            i < k < tokens(line).len() ==> #[trigger] tokens(line)[k] != seq!['<']) ==> target_from(
            tokens(line),
            1,
            word_lt(),
            Seq::empty(),
        ) == trimmed(tokens(line)[i + 1]),
        tokens(line)[i] == seq!['>'] && (forall|k: int|
            i < k < tokens(line).len() ==> #[trigger] tokens(line)[k] != seq!['>']) ==> target_from(
            tokens(line),
            1,
            word_gt(),
            Seq::empty(),
        ) == trimmed(tokens(line)[i + 1]),
{
    let ts = tokens(line);
    if ts[i] == seq!['<'] && (forall|k: int| i < k < ts.len() ==> #[trigger] ts[k] != seq!['<']) {
        lemma_target_is(ts, 1, word_lt(), Seq::empty(), i);
    }
    if ts[i] == seq!['>'] && (forall|k: int| i < k < ts.len() ==> #[trigger] ts[k] != seq!['>']) {
        lemma_target_is(ts, 1, word_gt(), Seq::empty(), i);
    }
}

/// Law: the listing of the history adds, for each further line, two
/// spaces, the line's number counted from 1, two spaces and the line as it
/// was typed; with no lines it is empty.
pub proof fn law_listing_numbers_lines(hist: Seq<Seq<char>>, line: Seq<char>)
    ensures
        listing(Seq::empty()) == Seq::<char>::empty(),
        listing(hist.push(line)) == listing(hist) + seq![' ', ' '] + decimal(hist.len() + 1) + seq![
            ' ',
            ' ',
        ] + line + seq!['\n'],
{
    assert(hist.push(line).drop_last() =~= hist);
    assert(listing(hist.push(line)) =~= listing(hist) + seq![' ', ' '] + decimal(hist.len() + 1)
        + seq![' ', ' '] + line + seq!['\n']);
}

// ---------------------------------------------------------------------------
// Executable functions
// ---------------------------------------------------------------------------

/// The parts of a command read from its words.
pub struct CommandWords<'a> {
    pub isBackground: bool,
    pub inputFile: &'a str,
    pub outputFile: &'a str,
    pub arguments: Vec<&'a str>,
}

/// Reads the words after the first: the background mark, the input and
/// output files and the arguments.
pub fn scan_words<'a>(toks: &Vec<&'a str>) -> (r: CommandWords<'a>)
    requires
        toks.len() >= 2 ==> toks@.last()@ != word_lt() && toks@.last()@ != word_gt(),
    ensures
        r.isBackground == marks_background(views(toks@)),
        views(r.arguments@) == arguments_from(views(toks@), 1, false),
        r.inputFile@ == target_from(views(toks@), 1, word_lt(), Seq::empty()),
        r.outputFile@ == target_from(views(toks@), 1, word_gt(), Seq::empty()),
{
    let ghost ts = views(toks@);
    let mut arguments: Vec<&'a str> = Vec::new();
    let mut isBackground = false;
    let mut inputFile: &'a str = "";
    let mut outputFile: &'a str = "";
    let mut skipArg = false;
    proof {
        crate::text::lemma_mark_literals();
    }
    let mut i: usize = 1;
    while i < toks.len()
        invariant
            ts == views(toks@),
            1 <= i <= toks.len() || toks.len() == 0,
            toks.len() >= 2 ==> ts.last() != word_lt() && ts.last() != word_gt(),
            views(arguments@) + arguments_from(ts, i as int, skipArg) == arguments_from(ts, 1, false),
            target_from(ts, i as int, word_lt(), inputFile@) == target_from(ts, 1, word_lt(), Seq::empty()),
            target_from(ts, i as int, word_gt(), outputFile@) == target_from(ts, 1, word_gt(), Seq::empty()),
            isBackground == amp_before(ts, i as int),
        decreases toks.len() - i,
    {
        proof {
            crate::text::lemma_mark_literals();
        }
        let t = toks[i];
        assert(t@ == ts[i as int]);
        let ghost before = views(arguments@);
        if same_text(t, "&") {
            isBackground = true;
        } else if same_text(t, "<") {
            assert(i + 1 < toks.len());
            assert(toks[i + 1]@ == ts[i + 1]);
            inputFile = trim(toks[i + 1]);
            skipArg = true;
        } else if same_text(t, ">") {
            assert(i + 1 < toks.len());
            assert(toks[i + 1]@ == ts[i + 1]);
            outputFile = trim(toks[i + 1]);
            skipArg = true;
        } else if !skipArg {
            arguments.push(trim(t));
            assert(views(arguments@) =~= before.push(trimmed(ts[i as int])));
            assert(views(arguments@) + arguments_from(ts, i + 1, false) =~= before + (seq![
                trimmed(ts[i as int]),
            ] + arguments_from(ts, i + 1, false)));
        } else {
            skipArg = false;
        }
        i = i + 1;
    }
    assert(ts.len() == toks.len());
    CommandWords { isBackground, inputFile, outputFile, arguments }
}

/// Whether `getSingleCommand` can read the line: its last word, when it is
/// not the first, is neither `<` nor `>`.
pub fn is_readable(rawCommandText: &str) -> (b: bool)
    ensures
        b == readable(rawCommandText@),
{
    proof {
        crate::text::lemma_mark_literals();
        crate::text::law_pieces_join_back(rawCommandText@, seq![' ']);
    }
    let words = split(rawCommandText, " ");
    let n = words.len();
    if n < 2 {
        return true;
    }
    assert(words@[n - 1]@ == tokens(rawCommandText@).last());
    !same_text(words[n - 1], "<") && !same_text(words[n - 1], ">")
}

/// Parses a line of one command: the first word, trimmed, is the command;
/// `&` marks a background job; the word after `<` or `>` names the input
/// or output file; the other words are the arguments.
pub fn getSingleCommand<'a>(rawCommandText: &'a str) -> (c: singleCommand<'a>)
    requires
        readable(rawCommandText@),
    ensures
        single_command_of(c, rawCommandText@),
{
    proof {
        crate::text::lemma_mark_literals();
        crate::text::law_pieces_join_back(rawCommandText@, seq![' ']);
    }
    let rawCommandSplit = split(rawCommandText, " ");
    let command = trim(rawCommandSplit[0]);
    let words = scan_words(&rawCommandSplit);
    singleCommand {
        command: command,
        isBackground: words.isBackground,
        arguments: words.arguments,
        inputFile: words.inputFile,
        outputFile: words.outputFile,
        commandOutput: String::new(),
    }
}

/// What to do for a parsed command: `exit`, `pwd`, `history` and `cd` are
/// the shell's own; anything else is unsupported.
pub fn plan_single_command<'a>(command: &singleCommand<'a>) -> (a: BasicAction<'a>)
    ensures
        command.command@ == seq!['e', 'x', 'i', 't'] ==> a is Exit,
        command.command@ == seq!['p', 'w', 'd'] ==> a is Pwd,
        command.command@ == seq!['h', 'i', 's', 't', 'o', 'r', 'y'] ==> a is History,
        command.command@ == seq!['c', 'd'] ==> (a matches BasicAction::Cd(d) && match d {
            Some(p) => command.arguments@.len() > 0 && p == command.arguments@[0],
            None => command.arguments@.len() == 0,
        }),
        command.command@ != seq!['e', 'x', 'i', 't'] && command.command@ != seq!['p', 'w', 'd']
            && command.command@ != seq!['h', 'i', 's', 't', 'o', 'r', 'y'] && command.command@
            != seq!['c', 'd'] ==> a is Unsupported,
{
    proof {
        reveal_strlit("exit");
        reveal_strlit("pwd");
        reveal_strlit("history");
        reveal_strlit("cd");
        assert("exit"@ =~= seq!['e', 'x', 'i', 't']);
        assert("pwd"@ =~= seq!['p', 'w', 'd']);
        assert("history"@ =~= seq!['h', 'i', 's', 't', 'o', 'r', 'y']);
        assert("cd"@ =~= seq!['c', 'd']);
    }
    if same_text(command.command, "exit") {
        BasicAction::Exit
    } else if same_text(command.command, "pwd") {
        BasicAction::Pwd
    } else if same_text(command.command, "history") {
        BasicAction::History
    } else if same_text(command.command, "cd") {
        if command.arguments.len() > 0 {
            BasicAction::Cd(Some(command.arguments[0]))
        } else {
            BasicAction::Cd(None)
        }
    } else {
        BasicAction::Unsupported
    }
}

/// The lines that list the history: for each line, numbered from 1, two
/// spaces, the number, two spaces and the line.
pub fn historyShell(historyInput: &Vec<String>) -> (text: String)
    ensures
        text@ == listing(historyInput@.map_values(|h: String| h@)),
{
    let ghost hist = historyInput@.map_values(|h: String| h@);
    let mut output = String::new();
    for x in 0..historyInput.len()
        invariant
            hist == historyInput@.map_values(|h: String| h@),
            output@ == listing(hist.take(x as int)),
    {
        proof {
            reveal_strlit("  ");
            reveal_strlit("\n");
        }
        push_str(&mut output, "  ");
        push_str(&mut output, decimal_string(x + 1).as_str());
        push_str(&mut output, "  ");
        push_str(&mut output, historyInput[x].as_str());
        push_str(&mut output, "\n");
        assert(hist.take(x + 1).drop_last() =~= hist.take(x as int));
        assert(output@ =~= listing(hist.take(x + 1)));
    }
    assert(hist.take(historyInput.len() as int) =~= hist);
    output
}

/// The program and arguments to run for the words of an external command
/// of one to three words: the first word trimmed; a second word trimmed
/// when there are two, as it is when there are three; no run otherwise.
pub fn externals<'a>(singleCommand: &Vec<&'a str>) -> (argv: Option<Vec<&'a str>>)
    ensures
        singleCommand.len() == 1 ==> (argv matches Some(a) && views(a@) == seq![
            trimmed(singleCommand@[0]@),
        ]),
        singleCommand.len() == 2 ==> (argv matches Some(a) && views(a@) == seq![
            trimmed(singleCommand@[0]@),
            trimmed(singleCommand@[1]@),
        ]),
        singleCommand.len() == 3 ==> (argv matches Some(a) && views(a@) == seq![
            trimmed(singleCommand@[0]@),
            singleCommand@[1]@,
            singleCommand@[2]@,
        ]),
        singleCommand.len() == 0 || singleCommand.len() > 3 ==> argv is None,
{
    if singleCommand.len() == 1 {
        let a = vec![trim(singleCommand[0])];
        assert(views(a@) =~= seq![trimmed(singleCommand@[0]@)]);
        Some(a)
    } else if singleCommand.len() == 2 {
        let a = vec![trim(singleCommand[0]), trim(singleCommand[1])];
        assert(views(a@) =~= seq![trimmed(singleCommand@[0]@), trimmed(singleCommand@[1]@)]);
        Some(a)
    } else if singleCommand.len() == 3 {
        let a = vec![trim(singleCommand[0]), singleCommand[1], singleCommand[2]];
        assert(views(a@) =~= seq![
            trimmed(singleCommand@[0]@),
            singleCommand@[1]@,
            singleCommand@[2]@,
        ]);
        Some(a)
    } else {
        None
    }
}

} // verus!
