//! The shell's command lines: pipelines of commands joined by ` | `, with
//! `&` for background jobs and `<` / `>` for input and output files, and the
//! text that the built-in `history` and `jobs` commands print.
use vstd::prelude::*;
use vstd::string::*;

use crate::single::{word_amp, word_gt, word_lt};
use crate::number::{decimal, decimal_string, pad_left, padded};
use crate::text::{
    contains, first_match, law_pieces_join_back, pieces, push_str, same_text, split,
    string_views, trim, trimmed, views,
};

verus! {

/// What is known of a child process of a command.
#[derive(PartialEq, Eq, Structural, Clone, Copy, Debug)]
pub enum ProcessState {
    /// It has exited.
    Exited,
    /// It has not been seen to exit.
    Running,
}

/// One command line that the shell has run, as its history keeps it.
pub struct SingleCommand {
    /// The line as it was typed.
    pub rawCommand: String,
    /// The line ends in a background job (`&`).
    pub isBackground: bool,
    /// What the last built-in command of the line printed.
    pub commandOutput: String,
    /// One entry per command of the pipeline: `None` for a built-in command,
    /// the state of the child process for an external one.
    pub processes: Vec<Option<ProcessState>>,
}

/// Where a command of the pipeline reads from.
pub enum Input {
    /// The shell's own standard input.
    Inherit,
    /// The output of the previous (external) command.
    PreviousOutput,
    /// A pipe that the shell fills with the output of the previous built-in.
    BuiltinOutput,
    /// The named file.
    File(String),
}

/// Where a command of the pipeline writes to.
pub enum Output {
    /// The shell's own standard output.
    Inherit,
    /// A pipe to the next command.
    Pipe,
    /// The named file.
    File(String),
}

/// One command of a pipeline, with what the shell does for it.
pub enum Stage {
    /// `exit`: the shell ends.
    Exit,
    /// `pwd`: prints the working directory.
    Pwd,
    /// `kill <pid>`: the word after `kill`, if there is one.
    Kill(Option<String>),
    /// `cd <dir>`: the word after `cd`, if there is one.
    Cd(Option<String>),
    /// `history`: lists the earlier command lines.
    History,
    /// `jobs`: lists the commands whose processes have not exited.
    Jobs,
    /// Any other command: a program run as a child process.
    External { program: String, args: Vec<String>, stdin: Input, stdout: Output },
}

/// What the shell does for one command line.
pub struct Plan {
    /// Some command of the line holds `&`.
    pub is_background: bool,
    /// The commands of the pipeline, in order.
    pub stages: Vec<Stage>,
}

// ---------------------------------------------------------------------------
// Specification
// ---------------------------------------------------------------------------

pub open spec fn text_space() -> Seq<char> {
    seq![' ']
}

pub open spec fn text_bar() -> Seq<char> {
    seq![' ', '|', ' ']
}

/// `pat` occurs in `s`.
pub open spec fn occurs(s: Seq<char>, pat: Seq<char>) -> bool {
    first_match(s, pat) >= 0
}

/// The commands of a line: the pieces between ` | `.
pub open spec fn segments(line: Seq<char>) -> Seq<Seq<char>> {
    pieces(line, text_bar())
}

/// A command with its `&`, `<file` or `>file` part cut off; only the first
/// of the three that it holds, in that order, is looked at.
pub open spec fn command_part(seg: Seq<char>) -> Seq<char> {
    if occurs(seg, word_amp()) {
        trimmed(pieces(seg, word_amp())[0])
    } else if occurs(seg, word_lt()) {
        trimmed(pieces(seg, word_lt())[0])
    } else if occurs(seg, word_gt()) {
        trimmed(pieces(seg, word_gt())[0])
    } else {
        seg
    }
}

/// The input file named by the first `n` commands: the last one named.
pub open spec fn input_file(segs: Seq<Seq<char>>, n: int) -> Seq<char>
    decreases n,
{
    if n <= 0 {
        Seq::empty()
    } else {
        let s = segs[n - 1];
        if !occurs(s, word_amp()) && occurs(s, word_lt()) {
            trimmed(pieces(s, word_lt())[1])
        } else {
            input_file(segs, n - 1)
        }
    }
}

/// The output file named by the first `n` commands: the last one named.
pub open spec fn output_file(segs: Seq<Seq<char>>, n: int) -> Seq<char>
    decreases n,
{
    if n <= 0 {
        Seq::empty()
    } else {
        let s = segs[n - 1];
        if !occurs(s, word_amp()) && !occurs(s, word_lt()) && occurs(s, word_gt()) {
            trimmed(pieces(s, word_gt())[1])
        } else {
            output_file(segs, n - 1)
        }
    }
}

/// Some of the first `n` commands holds `&`.
pub open spec fn background(segs: Seq<Seq<char>>, n: int) -> bool {
    exists|j: int| 0 <= j < n && occurs(#[trigger] segs[j], word_amp())
}

/// The words of a command: its pieces between single spaces, each trimmed.
pub open spec fn words(seg: Seq<char>) -> Seq<Seq<char>> {
    pieces(command_part(seg), text_space()).map_values(|w: Seq<char>| trimmed(w))
}

/// `name` is one of the commands the shell runs itself.
pub open spec fn is_builtin(name: Seq<char>) -> bool {
    ||| name == seq!['e', 'x', 'i', 't']
    ||| name == seq!['p', 'w', 'd']
    ||| name == seq!['k', 'i', 'l', 'l']
    ||| name == seq!['c', 'd']
    ||| name == seq!['h', 'i', 's', 't', 'o', 'r', 'y']
    ||| name == seq!['j', 'o', 'b', 's']
}

/// The word after the command, if there is one.
pub open spec fn first_argument(ws: Seq<Seq<char>>) -> Option<Seq<char>> {
    if ws.len() > 1 {
        Some(ws[1])
    } else {
        None
    }
}

/// The text of an optional string.
pub open spec fn optional_text(o: Option<String>) -> Option<Seq<char>> {
    match o {
        Some(s) => Some(s@),
        None => None,
    }
}

/// Where command `i` of `n` reads from, given whether the command before it
/// is a built-in and the input file of the line.
pub open spec fn input_is(x: Input, i: int, previous_builtin: bool, file: Seq<char>) -> bool {
    if i > 0 && !previous_builtin {
        x is PreviousOutput
    } else if i > 0 {
        x is BuiltinOutput
    } else if file.len() > 0 {
        x matches Input::File(f) && f@ == file
    } else {
        x is Inherit
    }
}

/// Where command `i` of `n` writes to, given the output file of the line.
pub open spec fn output_is(x: Output, i: int, n: int, file: Seq<char>) -> bool {
    if i < n - 1 {
        x is Pipe
    } else if file.len() > 0 {
        x matches Output::File(f) && f@ == file
    } else {
        x is Inherit
    }
}

/// What the shell does for command `i` of the `n` commands `segs`.
pub open spec fn stage_is(st: Stage, segs: Seq<Seq<char>>, i: int) -> bool {
    let n = segs.len() as int;
    let ws = words(segs[i]);
    let name = ws[0];
    if name == seq!['e', 'x', 'i', 't'] {
        st is Exit
    } else if name == seq!['p', 'w', 'd'] {
        st is Pwd
    } else if name == seq!['k', 'i', 'l', 'l'] {
        st matches Stage::Kill(a) && optional_text(a) == first_argument(ws)
    } else if name == seq!['c', 'd'] {
        st matches Stage::Cd(a) && optional_text(a) == first_argument(ws)
    } else if name == seq!['h', 'i', 's', 't', 'o', 'r', 'y'] {
        st is History
    } else if name == seq!['j', 'o', 'b', 's'] {
        st is Jobs
    } else {
        st matches Stage::External { program, args, stdin, stdout } && program@ == name
            && string_views(args@) == ws.drop_first() && input_is(
            stdin,
            i,
            i > 0 && is_builtin(words(segs[i - 1])[0]),
            input_file(segs, n),
        ) && output_is(stdout, i, n, output_file(segs, n))
    }
}

/// The plan of a command line.
pub open spec fn plan_of(p: Plan, line: Seq<char>) -> bool {
    let segs = segments(line);
    &&& p.is_background == background(segs, segs.len() as int)
    &&& p.stages.len() == segs.len()
    &&& forall|i: int| 0 <= i < segs.len() ==> stage_is(#[trigger] p.stages@[i], segs, i)
}

/// The line that `history` prints for command line number `k`: the number
/// right-aligned in five columns, two spaces, the trimmed line.
pub open spec fn history_line(k: nat, raw: Seq<char>) -> Seq<char> {
    padded(decimal(k), 5) + seq![' ', ' '] + trimmed(raw) + seq!['\n']
}

/// What `history` prints for the earlier lines `hist`, numbered from 1.
pub open spec fn history_text(hist: Seq<Seq<char>>) -> Seq<char>
    decreases hist.len(),
{
    if hist.len() == 0 {
        Seq::empty()
    } else {
        history_text(hist.drop_last()) + history_line(hist.len(), hist.last())
    }
}

/// The name under which `jobs` lists a command line: the part before its
/// first `&`, trimmed.
pub open spec fn job_name(raw: Seq<char>) -> Seq<char> {
    trimmed(pieces(raw, word_amp())[0])
}

/// One line with `name` for each process of `ps` that has not exited.
pub open spec fn running_lines(ps: Seq<Option<ProcessState>>, name: Seq<char>) -> Seq<char>
    decreases ps.len(),
{
    if ps.len() == 0 {
        Seq::empty()
    } else {
        running_lines(ps.drop_last(), name) + if ps.last() == Some(ProcessState::Running) {
            name.push('\n')
        } else {
            Seq::empty()
        }
    }
}

/// What `jobs` prints for the earlier lines `hist`.
pub open spec fn jobs_text(hist: Seq<SingleCommand>) -> Seq<char>
    decreases hist.len(),
{
    if hist.len() == 0 {
        Seq::empty()
    } else {
        jobs_text(hist.drop_last()) + running_lines(
            hist.last().processes@,
            job_name(hist.last().rawCommand@),
        )
    }
}

/// The raw lines of a history.
pub open spec fn raw_lines(hist: Seq<SingleCommand>) -> Seq<Seq<char>> {
    hist.map_values(|c: SingleCommand| c.rawCommand@)
}

// ---------------------------------------------------------------------------
// Lemmas
// ---------------------------------------------------------------------------

/// A separator that occurs cuts the text into at least two pieces.
proof fn lemma_two_pieces(s: Seq<char>, pat: Seq<char>)
    requires
        pat.len() > 0,
        first_match(s, pat) >= 0,
    ensures
        pieces(s, pat).len() >= 2,
{
    crate::text::lemma_first_match_from(s, pat, 0);
    let k = first_match(s, pat);
    law_pieces_join_back(s.skip(k + pat.len()), pat);
}

/// The names of the built-in commands, as text.
proof fn lemma_builtin_names()
    ensures
        "exit"@ == seq!['e', 'x', 'i', 't'],
        "pwd"@ == seq!['p', 'w', 'd'],
        "kill"@ == seq!['k', 'i', 'l', 'l'],
        "cd"@ == seq!['c', 'd'],
        "history"@ == seq!['h', 'i', 's', 't', 'o', 'r', 'y'],
        "jobs"@ == seq!['j', 'o', 'b', 's'],
{
    reveal_strlit("exit");
    reveal_strlit("pwd");
    reveal_strlit("kill");
    reveal_strlit("cd");
    reveal_strlit("history");
    reveal_strlit("jobs");
    assert("exit"@ =~= seq!['e', 'x', 'i', 't']);
    assert("pwd"@ =~= seq!['p', 'w', 'd']);
    assert("kill"@ =~= seq!['k', 'i', 'l', 'l']);
    assert("cd"@ =~= seq!['c', 'd']);
    assert("history"@ =~= seq!['h', 'i', 's', 't', 'o', 'r', 'y']);
    assert("jobs"@ =~= seq!['j', 'o', 'b', 's']);
}

/// Law: the commands of a line, joined again with ` | `, give the line back;
/// there is at least one, and none of them holds ` | `.
pub proof fn law_segments_rejoin(line: Seq<char>)
    ensures
        crate::text::joined(segments(line), seq![' ', '|', ' ']) == line,
        segments(line).len() >= 1,
        forall|i: int|
            0 <= i < segments(line).len() ==> first_match(
                #[trigger] segments(line)[i],
                seq![' ', '|', ' '],
            ) < 0,
{
    law_pieces_join_back(line, text_bar());
    crate::text::law_pieces_hold_no_separator(line, text_bar());
}

/// Law: how a plan connects its commands. A program after a program reads
/// the output of the one before it, and a program after one of the six
/// built-ins (`exit`, `pwd`, `kill`, `cd`, `history`, `jobs`) reads what
/// that built-in printed, whatever files the line names; only the first
/// command may read the input file, and it does exactly when the line names
/// one. Every program but the last writes into a pipe, and only the last
/// may write to the output file, which it does exactly when the line names
/// one.
pub proof fn law_plan_connects_commands(p: Plan, line: Seq<char>)
    requires
        plan_of(p, line),
    ensures
        forall|i: int|
            #![trigger p.stages@[i]]
            0 < i < p.stages.len() && p.stages@[i] is External ==> {
                let previous = words(segments(line)[i - 1])[0];
                let previous_builtin = previous == seq!['e', 'x', 'i', 't'] || previous == seq![
                    'p',
                    'w',
                    'd',
                ] || previous == seq!['k', 'i', 'l', 'l'] || previous == seq!['c', 'd']
                    || previous == seq!['h', 'i', 's', 't', 'o', 'r', 'y'] || previous == seq![
                    'j',
                    'o',
                    'b',
                    's',
                ];
                &&& previous_builtin ==> p.stages@[i]->stdin is BuiltinOutput
                &&& !previous_builtin ==> p.stages@[i]->stdin is PreviousOutput
            },
        forall|i: int|
            #![trigger p.stages@[i]]
            0 <= i < p.stages.len() && p.stages@[i] is External && p.stages@[i]->stdin is File
                ==> i == 0,
        p.stages.len() > 0 && p.stages@[0] is External ==> (p.stages@[0]->stdin is File
            <==> input_file(segments(line), segments(line).len() as int).len() > 0),
        p.stages.len() > 0 && p.stages@[0] is External && input_file(
            segments(line),
            segments(line).len() as int,
        ).len() == 0 ==> p.stages@[0]->stdin is Inherit,
        forall|i: int|
            #![trigger p.stages@[i]]
            0 <= i < p.stages.len() - 1 && p.stages@[i] is External ==> p.stages@[i]->stdout is Pipe,
        p.stages.len() > 0 && p.stages@[p.stages.len() - 1] is External ==> (p.stages@[p.stages.len()
            - 1]->stdout is File <==> output_file(segments(line), segments(line).len() as int).len()
            > 0),
{
    let segs = segments(line);
    assert forall|i: int|
        #![trigger p.stages@[i]]
        0 <= i < p.stages.len() && p.stages@[i] is External ==> {
            let name = words(segs[i])[0];
            &&& !is_builtin(name)
            &&& input_is(
                p.stages@[i]->stdin,
                i,
                i > 0 && is_builtin(words(segs[i - 1])[0]),
                input_file(segs, segs.len() as int),
            )
            &&& output_is(p.stages@[i]->stdout, i, segs.len() as int, output_file(segs, segs.len() as int))
        } by {
        if 0 <= i < p.stages.len() && p.stages@[i] is External {
            assert(stage_is(p.stages@[i], segs, i));
        }
    }
}

/// Law: what a plan does for each command, by its first word: the six
/// built-ins are run by the shell (`kill` and `cd` with the word after
/// them), and any other first word is a program, run with the words after
/// it as arguments.
pub proof fn law_plan_recognises_builtins(p: Plan, line: Seq<char>)
    requires
        plan_of(p, line),
    ensures
        forall|i: int|
            #![trigger p.stages@[i]]
            0 <= i < p.stages.len() ==> {
                let ws = words(segments(line)[i]);
                let name = ws[0];
                &&& name == seq!['e', 'x', 'i', 't'] ==> p.stages@[i] is Exit
                &&& name == seq!['p', 'w', 'd'] ==> p.stages@[i] is Pwd
                &&& name == seq!['h', 'i', 's', 't', 'o', 'r', 'y'] ==> p.stages@[i] is History
                &&& name == seq!['j', 'o', 'b', 's'] ==> p.stages@[i] is Jobs
                &&& name == seq!['k', 'i', 'l', 'l'] ==> (p.stages@[i] is Kill && (ws.len() > 1
                    ==> (p.stages@[i]->Kill_0 matches Some(a) && a@ == ws[1])) && (ws.len() <= 1
                    ==> p.stages@[i]->Kill_0 is None))
                &&& name == seq!['c', 'd'] ==> (p.stages@[i] is Cd && (ws.len() > 1
                    ==> (p.stages@[i]->Cd_0 matches Some(a) && a@ == ws[1])) && (ws.len() <= 1
                    ==> p.stages@[i]->Cd_0 is None))
                &&& name != seq!['e', 'x', 'i', 't'] && name != seq!['p', 'w', 'd'] && name
                    != seq!['k', 'i', 'l', 'l'] && name != seq!['c', 'd'] && name != seq![
                    'h',
                    'i',
                    's',
                    't',
                    'o',
                    'r',
                    'y',
                ] && name != seq!['j', 'o', 'b', 's'] ==> (p.stages@[i] is External
                    && p.stages@[i]->program@ == name && string_views(p.stages@[i]->args@)
                    == ws.drop_first())
            },
{
    let segs = segments(line);
    assert forall|i: int| #![trigger p.stages@[i]] 0 <= i < p.stages.len() implies stage_is(
        p.stages@[i],
        segs,
        i,
    ) by {}
}

/// Law: `history` adds, for each further line, one line that shows the
/// line's number right-aligned in five columns, two spaces, and the whole
/// line as it was typed, trimmed only of surrounding whitespace; with no
/// earlier lines it prints nothing.
pub proof fn law_history_lists_whole_lines(hist: Seq<Seq<char>>, raw: Seq<char>)
    ensures
        history_text(Seq::empty()) == Seq::<char>::empty(),
        history_text(hist.push(raw)) == history_text(hist) + padded(decimal(hist.len() + 1), 5)
            + seq![' ', ' '] + trimmed(raw) + seq!['\n'],
{
    assert(hist.push(raw).drop_last() =~= hist);
    assert(history_text(hist.push(raw)) =~= history_text(hist) + padded(decimal(hist.len() + 1), 5)
        + seq![' ', ' '] + trimmed(raw) + seq!['\n']);
}

/// `c` is not one of the characters of ` | `.
proof fn lemma_bar_lacks(c: char)
    requires
        c != ' ' && c != '|',
    ensures
        !text_bar().contains(c),
{
    if text_bar().contains(c) {
        let k = choose|k: int| 0 <= k < text_bar().len() && text_bar()[k] == c;
        assert(text_bar()[k] == ' ' || text_bar()[k] == '|');
    }
}

/// A character other than those of ` | ` is in the line exactly when one of
/// its commands holds it.
proof fn lemma_line_holds(line: Seq<char>, c: char)
    requires
        c != ' ' && c != '|',
    ensures
        line.contains(c) <==> exists|j: int|
            0 <= j < segments(line).len() && (#[trigger] segments(line)[j]).contains(c),
{
    law_pieces_join_back(line, text_bar());
    lemma_bar_lacks(c);
    crate::text::lemma_joined_holds(segments(line), text_bar(), c);
}

/// Law: a line is planned as a background job exactly when it holds `&`.
pub proof fn law_background_iff_ampersand(p: Plan, line: Seq<char>)
    requires
        plan_of(p, line),
    ensures
        p.is_background <==> line.contains('&'),
{
    let segs = segments(line);
    lemma_line_holds(line, '&');
    assert forall|j: int| 0 <= j < segs.len() implies (occurs(#[trigger] segs[j], word_amp())
        <==> segs[j].contains('&')) by {
        crate::text::lemma_one_char_occurs(segs[j], '&');
    }
}

/// An input file is named only by a command that holds `<`.
proof fn lemma_input_file_needs_mark(segs: Seq<Seq<char>>, n: int)
    requires
        n <= segs.len(),
    ensures
        input_file(segs, n).len() > 0 ==> exists|j: int| 0 <= j < n && (#[trigger] segs[j]).contains('<'),
    decreases n,
{
    if n > 0 {
        lemma_input_file_needs_mark(segs, n - 1);
        crate::text::lemma_one_char_occurs(segs[n - 1], '<');
    }
}

/// An output file is named only by a command that holds `>`.
proof fn lemma_output_file_needs_mark(segs: Seq<Seq<char>>, n: int)
    requires
        n <= segs.len(),
    ensures
        output_file(segs, n).len() > 0 ==> exists|j: int| 0 <= j < n && (#[trigger] segs[j]).contains('>'),
    decreases n,
{
    if n > 0 {
        lemma_output_file_needs_mark(segs, n - 1);
        crate::text::lemma_one_char_occurs(segs[n - 1], '>');
    }
}

/// Law: a line without `<` reads no file, and a line without `>` writes
/// none: then the first program reads the shell's own input, and the last
/// one writes to the shell's own output.
pub proof fn law_files_need_marks(p: Plan, line: Seq<char>)
    requires
        plan_of(p, line),
    ensures
        !line.contains('<') ==> forall|i: int|
            #![trigger p.stages@[i]]
            0 <= i < p.stages.len() && p.stages@[i] is External ==> !(p.stages@[i]->stdin is File),
        !line.contains('<') && p.stages.len() > 0 && p.stages@[0] is External
            ==> p.stages@[0]->stdin is Inherit,
        !line.contains('>') ==> forall|i: int|
            #![trigger p.stages@[i]]
            0 <= i < p.stages.len() && p.stages@[i] is External ==> !(p.stages@[i]->stdout is File),
        !line.contains('>') && p.stages.len() > 0 && p.stages@[p.stages.len() - 1] is External
            ==> p.stages@[p.stages.len() - 1]->stdout is Inherit,
{
    let segs = segments(line);
    let n = segs.len() as int;
    law_plan_connects_commands(p, line);
    lemma_line_holds(line, '<');
    lemma_line_holds(line, '>');
    lemma_input_file_needs_mark(segs, n);
    lemma_output_file_needs_mark(segs, n);
    if !line.contains('>') && p.stages.len() > 0 && p.stages@[p.stages.len() - 1] is External {
        assert(stage_is(p.stages@[n - 1], segs, n - 1));
    }
}

/// Cut at a one-character mark `c` that `a` lacks, `a`, `c` and `b` give
/// `a` as the first piece and the first piece of `b` as the second.
proof fn lemma_first_pieces(a: Seq<char>, c: char, b: Seq<char>)
    requires
        !a.contains(c),
    ensures
        pieces(a + seq![c] + b, seq![c]).len() >= 2,
        pieces(a + seq![c] + b, seq![c])[0] == a,
        pieces(a + seq![c] + b, seq![c])[1] == pieces(b, seq![c])[0],
        occurs(a + seq![c] + b, seq![c]),
{
    crate::text::lemma_pieces_around_separator(a, c, b);
    assert forall|j: int| 0 <= j < a.len() implies a[j] != c by {
        if a[j] == c {
            assert(a.contains(c));
        }
    }
    crate::text::lemma_pieces_without_separator(a, c);
    law_pieces_join_back(b, seq![c]);
    assert((a + seq![c] + b)[a.len() as int] == c);
    crate::text::lemma_one_char_occurs(a + seq![c] + b, c);
}

/// Law: the words of a command, each trimmed, are its pieces between single
/// spaces. A command without `&`, `<` and `>` is cut as it stands; one that
/// holds a mark is cut in its trimmed text before the mark that counts:
/// `&` first, else `<`, else `>`.
pub proof fn law_command_words(a: Seq<char>, b: Seq<char>)
    ensures
        !a.contains('&') && !a.contains('<') && !a.contains('>') ==> words(a) == pieces(
            a,
            seq![' '],
        ).map_values(|w: Seq<char>| trimmed(w)),
        !a.contains('&') ==> words(a + seq!['&'] + b) == pieces(trimmed(a), seq![' ']).map_values(
            |w: Seq<char>| trimmed(w),
        ),
        !a.contains('<') && !(a + seq!['<'] + b).contains('&') ==> words(a + seq!['<'] + b)
            == pieces(trimmed(a), seq![' ']).map_values(|w: Seq<char>| trimmed(w)),
        !a.contains('>') && !(a + seq!['>'] + b).contains('&') && !(a + seq!['>'] + b).contains('<')
            ==> words(a + seq!['>'] + b) == pieces(trimmed(a), seq![' ']).map_values(
            |w: Seq<char>| trimmed(w),
        ),
{
    crate::text::lemma_one_char_occurs(a, '&');
    crate::text::lemma_one_char_occurs(a, '<');
    crate::text::lemma_one_char_occurs(a, '>');
    crate::text::lemma_one_char_occurs(a + seq!['<'] + b, '&');
    crate::text::lemma_one_char_occurs(a + seq!['>'] + b, '&');
    crate::text::lemma_one_char_occurs(a + seq!['>'] + b, '<');
    if !a.contains('&') {
        lemma_first_pieces(a, '&', b);
    }
    if !a.contains('<') {
        lemma_first_pieces(a, '<', b);
    }
    if !a.contains('>') {
        lemma_first_pieces(a, '>', b);
    }
}

/// The input file stays as it is over commands that name none.
proof fn lemma_input_file_kept(segs: Seq<Seq<char>>, k: int, n: int)
    requires
        0 <= k < n <= segs.len(),
        forall|j: int| k < j < n ==> !(#[trigger] segs[j]).contains('<') || segs[j].contains('&'),
    ensures
        input_file(segs, n) == input_file(segs, k + 1),
    decreases n,
{
    if n > k + 1 {
        lemma_input_file_kept(segs, k, n - 1);
        crate::text::lemma_one_char_occurs(segs[n - 1], '<');
        crate::text::lemma_one_char_occurs(segs[n - 1], '&');
    }
}

/// The output file stays as it is over commands that name none.
proof fn lemma_output_file_kept(segs: Seq<Seq<char>>, k: int, n: int)
    requires
        0 <= k < n <= segs.len(),
        forall|j: int|
            k < j < n ==> !(#[trigger] segs[j]).contains('>') || segs[j].contains('&') || segs[j].contains('<'),
    ensures
        output_file(segs, n) == output_file(segs, k + 1),
    decreases n,
{
    if n > k + 1 {
        lemma_output_file_kept(segs, k, n - 1);
        crate::text::lemma_one_char_occurs(segs[n - 1], '>');
        crate::text::lemma_one_char_occurs(segs[n - 1], '<');
        crate::text::lemma_one_char_occurs(segs[n - 1], '&');
    }
}

/// Law: the files of a line. The input file is the text after `<`, up to a
/// further `<`, trimmed, in the last command that holds `<` and no `&`; the
/// output file is the text after `>`, up to a further `>`, trimmed, in the
/// last command that holds `>` and neither `&` nor `<`.
pub proof fn law_redirect_files(segs: Seq<Seq<char>>, k: int, a: Seq<char>, b: Seq<char>)
    requires
        0 <= k < segs.len(),
    ensures
        segs[k] == a + seq!['<'] + b && !a.contains('<') && !segs[k].contains('&') && (forall|j: int|
            k < j < segs.len() ==> !(#[trigger] segs[j]).contains('<') || segs[j].contains('&'))
            ==> input_file(segs, segs.len() as int) == trimmed(pieces(b, seq!['<'])[0]),
        segs[k] == a + seq!['>'] + b && !a.contains('>') && !segs[k].contains('&') && !segs[k].contains(
            '<',
        ) && (forall|j: int|
            k < j < segs.len() ==> !(#[trigger] segs[j]).contains('>') || segs[j].contains('&')
                || segs[j].contains('<')) ==> output_file(segs, segs.len() as int) == trimmed(
            pieces(b, seq!['>'])[0],
        ),
{
    let n = segs.len() as int;
    crate::text::lemma_one_char_occurs(segs[k], '&');
    crate::text::lemma_one_char_occurs(segs[k], '<');
    if segs[k] == a + seq!['<'] + b && !a.contains('<') && !segs[k].contains('&') && (forall|j: int|
        k < j < segs.len() ==> !(#[trigger] segs[j]).contains('<') || segs[j].contains('&')) {
        lemma_first_pieces(a, '<', b);
        lemma_input_file_kept(segs, k, n);
    }
    if segs[k] == a + seq!['>'] + b && !a.contains('>') && !segs[k].contains('&') && !segs[k].contains(
        '<',
    ) && (forall|j: int|
        k < j < segs.len() ==> !(#[trigger] segs[j]).contains('>') || segs[j].contains('&')
            || segs[j].contains('<')) {
        lemma_first_pieces(a, '>', b);
        lemma_output_file_kept(segs, k, n);
    }
}

/// Law: `jobs` names a line by its text before the first `&`, trimmed, and
/// a line without `&` by the whole line, trimmed.
pub proof fn law_job_name(a: Seq<char>, b: Seq<char>)
    ensures
        !a.contains('&') ==> job_name(a + seq!['&'] + b) == trimmed(a),
        !a.contains('&') ==> job_name(a) == trimmed(a),
{
    if !a.contains('&') {
        lemma_first_pieces(a, '&', b);
        assert forall|j: int| 0 <= j < a.len() implies a[j] != '&' by {
            if a[j] == '&' {
                assert(a.contains('&'));
            }
        }
        crate::text::lemma_pieces_without_separator(a, '&');
    }
}

/// Law: the lines that `jobs` prints for a run of processes: one line with
/// the name for each process that is running, none for one that exited or
/// for a built-in, in order, so that the lines of two runs one after the
/// other are those of the first followed by those of the second.
pub proof fn law_running_lines(ps: Seq<Option<ProcessState>>, qs: Seq<Option<ProcessState>>, name: Seq<char>)
    ensures
        running_lines(Seq::empty(), name) == Seq::<char>::empty(),
        running_lines(seq![Some(ProcessState::Running)], name) == name + seq!['\n'],
        running_lines(seq![Some(ProcessState::Exited)], name) == Seq::<char>::empty(),
        running_lines(seq![None], name) == Seq::<char>::empty(),
        running_lines(ps + qs, name) == running_lines(ps, name) + running_lines(qs, name),
    decreases qs.len(),
{
    let one = seq![Some(ProcessState::Running)];
    assert(one.drop_last() =~= Seq::<Option<ProcessState>>::empty());
    assert(seq![Some(ProcessState::Exited)].drop_last() =~= Seq::<Option<ProcessState>>::empty());
    assert(seq![None::<ProcessState>].drop_last() =~= Seq::<Option<ProcessState>>::empty());
    assert(running_lines(one.drop_last(), name) == Seq::<char>::empty());
    assert(name.push('\n') =~= name + seq!['\n']);
    assert(running_lines(one, name) =~= name + seq!['\n']);
    if qs.len() == 0 {
        assert(ps + qs =~= ps);
        assert(running_lines(ps, name) + running_lines(qs, name) =~= running_lines(ps, name));
    } else {
        law_running_lines(ps, qs.drop_last(), name);
        assert((ps + qs).drop_last() =~= ps + qs.drop_last());
        assert((ps + qs).last() == qs.last());
        assert(running_lines(ps + qs, name) =~= running_lines(ps, name) + running_lines(qs, name));
    }
}

/// Law: what `jobs` prints for two runs of earlier lines, one after the
/// other, is what it prints for the first followed by what it prints for
/// the second; for one line, it is that line's running processes, under
/// its name.
pub proof fn law_jobs_lists_each_line(h: Seq<SingleCommand>, g: Seq<SingleCommand>, c: SingleCommand)
    ensures
        jobs_text(Seq::empty()) == Seq::<char>::empty(),
        jobs_text(seq![c]) == running_lines(c.processes@, job_name(c.rawCommand@)),
        jobs_text(h + g) == jobs_text(h) + jobs_text(g),
    decreases g.len(),
{
    assert(seq![c].drop_last() =~= Seq::<SingleCommand>::empty());
    assert(jobs_text(seq![c].drop_last()) == Seq::<char>::empty());
    assert(jobs_text(seq![c]) =~= running_lines(c.processes@, job_name(c.rawCommand@)));
    if g.len() == 0 {
        assert(h + g =~= h);
        assert(jobs_text(h) + jobs_text(g) =~= jobs_text(h));
    } else {
        law_jobs_lists_each_line(h, g.drop_last(), c);
        assert((h + g).drop_last() =~= h + g.drop_last());
        assert((h + g).last() == g.last());
        assert(jobs_text(h + g) =~= jobs_text(h) + jobs_text(g));
    }
}

// ---------------------------------------------------------------------------
// Executable functions
// ---------------------------------------------------------------------------

/// The `i`-th piece of `s` cut at `pat`, trimmed.
fn trimmed_piece<'a>(s: &'a str, pat: &str, i: usize) -> (r: &'a str)
    requires
        pat@.len() > 0,
        i < pieces(s@, pat@).len(),
    ensures
        r@ == trimmed(pieces(s@, pat@)[i as int]),
{
    let ps = split(s, pat);
    assert(views(ps@)[i as int] == ps@[i as int]@);
    trim(ps[i])
}

/// A copy of `s`.
fn owned(s: &str) -> (r: String)
    ensures
        r@ == s@,
{
    s.to_owned()
}

/// The words of the command part `cmd`: its pieces between single spaces,
/// each trimmed.
fn command_words(cmd: &str) -> (r: Vec<String>)
    ensures
        string_views(r@) == pieces(cmd@, text_space()).map_values(|w: Seq<char>| trimmed(w)),
{
    proof {
        crate::text::lemma_mark_literals();
    }
    let ps = split(cmd, " ");
    let mut r: Vec<String> = Vec::new();
    for i in 0..ps.len()
        invariant
            views(ps@) == pieces(cmd@, text_space()),
            r.len() == i,
            forall|j: int| 0 <= j < i ==> (#[trigger] r@[j])@ == trimmed(ps@[j]@),
    {
        r.push(owned(trim(ps[i])));
    }
    assert(string_views(r@) =~= pieces(cmd@, text_space()).map_values(
        |w: Seq<char>| trimmed(w),
    ));
    r
}

/// Whether `name` is one of the shell's own commands.
fn builtin_name(name: &str) -> (b: bool)
    ensures
        b == is_builtin(name@),
{
    proof {
        lemma_builtin_names();
    }
    same_text(name, "exit") || same_text(name, "pwd") || same_text(name, "kill") || same_text(
        name,
        "cd",
    ) || same_text(name, "history") || same_text(name, "jobs")
}

/// The plan for a command line: which commands the shell runs itself, and
/// for every other one the program, its arguments and how its input and
/// output are connected.
#[verifier::rlimit(40)]
pub fn plan_pipeline(rawCommandText: &str) -> (p: Plan)
    ensures
        plan_of(p, rawCommandText@),
{
    proof {
        crate::text::lemma_mark_literals();
    }
    let ghost segs = segments(rawCommandText@);
    let parts = split(rawCommandText, " | ");
    proof {
        law_pieces_join_back(rawCommandText@, text_bar());
    }
    let n = parts.len();
    // The command parts, and the files and background flag of the line.
    let mut commands: Vec<&str> = Vec::new();
    let mut inputFile: &str = "";
    let mut outputFile: &str = "";
    let mut isBackground = false;
    for i in 0..n
        invariant
            n == parts.len(),
            views(parts@) == segs,
            commands.len() == i,
            forall|j: int| 0 <= j < i ==> (#[trigger] commands@[j])@ == command_part(segs[j]),
            inputFile@ == input_file(segs, i as int),
            outputFile@ == output_file(segs, i as int),
            isBackground == background(segs, i as int),
    {
        proof {
            crate::text::lemma_mark_literals();
        }
        let seg = parts[i];
        assert(seg@ == segs[i as int]);
        if contains(seg, "&") {
            proof {
                law_pieces_join_back(seg@, word_amp());
            }
            isBackground = true;
            commands.push(trimmed_piece(seg, "&", 0));
        } else if contains(seg, "<") {
            proof {
                lemma_two_pieces(seg@, word_lt());
            }
            inputFile = trimmed_piece(seg, "<", 1);
            commands.push(trimmed_piece(seg, "<", 0));
        } else if contains(seg, ">") {
            proof {
                lemma_two_pieces(seg@, word_gt());
            }
            outputFile = trimmed_piece(seg, ">", 1);
            commands.push(trimmed_piece(seg, ">", 0));
        } else {
            commands.push(seg);
        }
        assert(background(segs, i + 1) == (background(segs, i as int) || occurs(
            segs[i as int],
            word_amp(),
        )));
    }
    let mut stages: Vec<Stage> = Vec::new();
    let mut previousBuiltin = false;
    for i in 0..n
        invariant
            n == parts.len(),
            n == segs.len(),
            views(parts@) == segs,
            commands.len() == n,
            forall|j: int| 0 <= j < n ==> (#[trigger] commands@[j])@ == command_part(segs[j]),
            inputFile@ == input_file(segs, n as int),
            outputFile@ == output_file(segs, n as int),
            stages.len() == i,
            i > 0 ==> previousBuiltin == is_builtin(words(segs[i - 1])[0]),
            forall|j: int| 0 <= j < i ==> stage_is(#[trigger] stages@[j], segs, j),
    {
        let ws = command_words(commands[i]);
        let ghost wsv = words(segs[i as int]);
        proof {
            law_pieces_join_back(commands@[i as int]@, text_space());
            assert(commands@[i as int]@ == command_part(segs[i as int]));
            assert(wsv.len() == pieces(commands@[i as int]@, text_space()).len());
            assert(string_views(ws@) == wsv);
            assert(ws@.len() == wsv.len());
            assert(ws@[0]@ == wsv[0]);
        }
        let name = ws[0].as_str();
        let builtin = builtin_name(name);
        proof {
            lemma_builtin_names();
        }
        let argument: Option<String> = if ws.len() > 1 {
            assert(ws@[1]@ == wsv[1]);
            Some(ws[1].clone())
        } else {
            None
        };
        let stage = if same_text(name, "exit") {
            Stage::Exit
        } else if same_text(name, "pwd") {
            Stage::Pwd
        } else if same_text(name, "kill") {
            Stage::Kill(argument)
        } else if same_text(name, "cd") {
            Stage::Cd(argument)
        } else if same_text(name, "history") {
            Stage::History
        } else if same_text(name, "jobs") {
            Stage::Jobs
        } else {
            let mut args: Vec<String> = Vec::new();
            for j in 1..ws.len()
                invariant
                    string_views(ws@) == wsv,
                    args.len() == j - 1,
                    forall|k: int| 0 <= k < j - 1 ==> (#[trigger] args@[k])@ == wsv[k + 1],
            {
                assert(ws@[j as int]@ == wsv[j as int]);
                args.push(ws[j].clone());
            }
            assert(string_views(args@) =~= wsv.drop_first());
            let stdin = if i > 0 && !previousBuiltin {
                Input::PreviousOutput
            } else if i > 0 {
                Input::BuiltinOutput
            } else if inputFile.unicode_len() > 0 {
                Input::File(owned(inputFile))
            } else {
                Input::Inherit
            };
            let stdout = if i + 1 < n {
                Output::Pipe
            } else if outputFile.unicode_len() > 0 {
                Output::File(owned(outputFile))
            } else {
                Output::Inherit
            };
            Stage::External { program: owned(name), args, stdin, stdout }
        };
        stages.push(stage);
        previousBuiltin = builtin;
    }
    Plan { is_background: isBackground, stages }
}

/// `command` as a line starts to run under `plan`: it is a background job
/// if it was one or the plan says so.
pub fn begin_pipeline(command: &mut SingleCommand, plan: &Plan)
    ensures
        final(command).isBackground == (old(command).isBackground || plan.is_background),
        final(command).rawCommand == old(command).rawCommand,
        final(command).commandOutput == old(command).commandOutput,
        final(command).processes == old(command).processes,
{
    if plan.is_background {
        command.isBackground = true;
    }
}

/// Records in `command` that the shell has done `stage`: a built-in command
/// adds an entry without a process, and `kill` and `cd` leave no output; a
/// program adds the entry of its running process and clears the output of
/// the built-ins before it, which it has been fed.
pub fn record_stage(command: &mut SingleCommand, stage: &Stage)
    ensures
        final(command).rawCommand == old(command).rawCommand,
        final(command).isBackground == old(command).isBackground,
        stage is Exit ==> final(command).processes == old(command).processes
            && final(command).commandOutput == old(command).commandOutput,
        stage is External ==> final(command).processes@ == old(command).processes@.push(
            Some(ProcessState::Running),
        ) && final(command).commandOutput@ == Seq::<char>::empty(),
        (stage is Kill || stage is Cd) ==> final(command).processes@ == old(
            command,
        ).processes@.push(None) && final(command).commandOutput@ == Seq::<char>::empty(),
        (stage is Pwd || stage is History || stage is Jobs) ==> final(command).processes@ == old(
            command,
        ).processes@.push(None) && final(command).commandOutput == old(command).commandOutput,
{
    match stage {
        Stage::Exit => {},
        Stage::External { .. } => {
            command.processes.push(Some(ProcessState::Running));
            command.commandOutput = String::new();
        },
        Stage::Kill(_) | Stage::Cd(_) => {
            command.processes.push(None);
            command.commandOutput = String::new();
        },
        _ => {
            command.processes.push(None);
        },
    }
}

/// What the shell does when all commands of a line have started.
pub struct LineEnd {
    /// Wait for the line's child processes (it is not a background job).
    pub wait_for_children: bool,
    /// Print the output of the last built-in command (there is some).
    pub print_output: bool,
}

/// What the shell does when all commands of `command` have started: it
/// waits for the children unless the line is a background job, and it
/// prints the output left by the built-ins if there is any.
pub fn end_of_line(command: &SingleCommand) -> (e: LineEnd)
    ensures
        e.wait_for_children == !command.isBackground,
        e.print_output == (command.commandOutput@.len() > 0),
{
    LineEnd {
        wait_for_children: !command.isBackground,
        print_output: command.commandOutput.as_str().unicode_len() > 0,
    }
}

/// The output of `pwd` for the working directory `path`: the path and a
/// line break.
pub fn pwdShell(command: &mut SingleCommand, path: &str)
    ensures
        final(command).commandOutput@ == path@.push('\n'),
        final(command).rawCommand == old(command).rawCommand,
        final(command).isBackground == old(command).isBackground,
        final(command).processes == old(command).processes,
{
    let mut output = owned(path);
    crate::text::push(&mut output, '\n');
    command.commandOutput = output;
}

/// The output of `history`: the earlier command lines, numbered from 1.
pub fn historyShell(command: &mut SingleCommand, historyInput: &Vec<SingleCommand>)
    ensures
        final(command).commandOutput@ == history_text(raw_lines(historyInput@)),
        final(command).rawCommand == old(command).rawCommand,
        final(command).isBackground == old(command).isBackground,
        final(command).processes == old(command).processes,
{
    let ghost hist = raw_lines(historyInput@);
    let mut output = String::new();
    for x in 0..historyInput.len()
        invariant
            hist == raw_lines(historyInput@),
            output@ == history_text(hist.take(x as int)),
    {
        proof {
            crate::text::lemma_mark_literals();
        }
        let number = pad_left(&decimal_string(x + 1), 5);
        push_str(&mut output, number.as_str());
        push_str(&mut output, "  ");
        push_str(&mut output, trim(historyInput[x].rawCommand.as_str()));
        push_str(&mut output, "\n");
        assert(hist.take(x + 1).drop_last() =~= hist.take(x as int));
        assert(hist.take(x + 1).last() == historyInput@[x as int].rawCommand@);
        assert(output@ =~= history_text(hist.take(x + 1)));
    }
    assert(hist.take(historyInput.len() as int) =~= hist);
    command.commandOutput = output;
}

/// The output of `jobs`: for each earlier command line, one line with its
/// name for each of its processes that has not exited.
pub fn jobsShell(command: &mut SingleCommand, historyInput: &Vec<SingleCommand>)
    ensures
        final(command).commandOutput@ == jobs_text(historyInput@),
        final(command).rawCommand == old(command).rawCommand,
        final(command).isBackground == old(command).isBackground,
        final(command).processes == old(command).processes,
{
    let mut output = String::new();
    for x in 0..historyInput.len()
        invariant
            output@ == jobs_text(historyInput@.take(x as int)),
    {
        let current = &historyInput[x];
        proof {
            crate::text::lemma_mark_literals();
            law_pieces_join_back(current.rawCommand@, word_amp());
        }
        let name = trimmed_piece(current.rawCommand.as_str(), "&", 0);
        let ghost start = output@;
        for i in 0..current.processes.len()
            invariant
                name@ == job_name(current.rawCommand@),
                output@ == start + running_lines(
                    current.processes@.take(i as int),
                    name@,
                ),
        {
            proof {
                crate::text::lemma_mark_literals();
            }
            if current.processes[i] == Some(ProcessState::Running) {
                push_str(&mut output, name);
                push_str(&mut output, "\n");
            }
            assert(current.processes@.take(i + 1).drop_last() =~= current.processes@.take(
                i as int,
            ));
            assert(output@ =~= start + running_lines(current.processes@.take(i + 1), name@));
        }
        assert(current.processes@.take(current.processes.len() as int)
            =~= current.processes@);
        assert(historyInput@.take(x + 1).drop_last() =~= historyInput@.take(x as int));
    }
    assert(historyInput@.take(historyInput.len() as int) =~= historyInput@);
    command.commandOutput = output;
}

} // verus!
