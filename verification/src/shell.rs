use vstd::prelude::*;

use crate::command::{
    parse_command_line, parse_words, strip_background, words_view, CommandLine,
    LineView,
};
use crate::text::{
    decimal, format_decimal, join_with_spaces, join_words, pad_left, pad_left_exec, parse_i32,
    parse_i32_spec, same_chars, split_words, words,
};

verus! {

pub open spec fn word_pwd() -> Seq<char> {
    seq!['p', 'w', 'd']
}

pub open spec fn word_cd() -> Seq<char> {
    seq!['c', 'd']
}

pub open spec fn word_exit() -> Seq<char> {
    seq!['e', 'x', 'i', 't']
}

pub open spec fn word_history() -> Seq<char> {
    seq!['h', 'i', 's', 't', 'o', 'r', 'y']
}

pub open spec fn word_kill() -> Seq<char> {
    seq!['k', 'i', 'l', 'l']
}

pub open spec fn word_jobs() -> Seq<char> {
    seq!['j', 'o', 'b', 's']
}

/// What the shell says when a built-in command gets the wrong arguments.
pub open spec fn wrong_parameters() -> Seq<char> {
    seq!['W', 'r', 'o', 'n', 'g', ' ', 'p', 'a', 'r', 'a', 'm', 'e', 't', 'e', 'r', 's']
}

/// What the shell says of a line with a command that has no name.
pub open spec fn syntax_error() -> Seq<char> {
    seq!['s', 'y', 'n', 't', 'a', 'x', ' ', 'e', 'r', 'r', 'o', 'r']
}

/// The names of the built-in commands.
pub open spec fn is_builtin(w: Seq<char>) -> bool {
    w == word_pwd() || w == word_cd() || w == word_exit() || w == word_history() || w
        == word_kill() || w == word_jobs()
}

/// What the shell is to do for one line.
pub enum Action {
    /// Nothing: the line has no words.
    Nothing,
    /// Print the working directory.
    PrintWorkingDirectory,
    /// Make this directory the working directory.
    ChangeDirectory(Vec<char>),
    /// Print this message.
    Report(Vec<char>),
    /// Leave the shell.
    Exit,
    /// Print these lines.
    Print(Vec<Vec<char>>),
    /// Send `SIGTERM` to this process.
    Terminate(i32),
    /// See which background processes have finished, then print the lines of
    /// the live jobs.
    ListJobs,
    /// Run this command line; if it runs in the background, record it as a
    /// job under the given line.
    Run(CommandLine, Vec<char>),
}

/// An action, as mathematics.
pub enum ActionView {
    Nothing,
    PrintWorkingDirectory,
    ChangeDirectory(Seq<char>),
    Report(Seq<char>),
    Exit,
    Print(Seq<Seq<char>>),
    Terminate(i32),
    ListJobs,
    Run(LineView, Seq<char>),
}

impl View for Action {
    type V = ActionView;

    open spec fn view(&self) -> ActionView {
        match self {
            Action::Nothing => ActionView::Nothing,
            Action::PrintWorkingDirectory => ActionView::PrintWorkingDirectory,
            Action::ChangeDirectory(d) => ActionView::ChangeDirectory(d@),
            Action::Report(m) => ActionView::Report(m@),
            Action::Exit => ActionView::Exit,
            Action::Print(ls) => ActionView::Print(ls@.map_values(|l: Vec<char>| l@)),
            Action::Terminate(p) => ActionView::Terminate(*p),
            Action::ListJobs => ActionView::ListJobs,
            Action::Run(c, l) => ActionView::Run(c@, l@),
        }
    }
}

/// The line that `history` prints for entry number `n`: the number
/// right-aligned in five places, two spaces, and the line.
pub open spec fn history_entry(n: nat, line: Seq<char>) -> Seq<char> {
    pad_left(decimal(n), 5) + seq![' ', ' '] + line
}

/// The lines that `history` prints, numbered from 1 in the order entered.
pub open spec fn history_listing(h: Seq<Seq<char>>) -> Seq<Seq<char>> {
    Seq::new(h.len(), |i: int| history_entry((i + 1) as nat, h[i]))
}

/// The line without its final newline.
pub open spec fn line_body(raw: Seq<char>) -> Seq<char> {
    if raw.len() > 0 && raw.last() == '\n' {
        raw.drop_last()
    } else {
        raw
    }
}

/// What a built-in command does, given its words and the history.
pub open spec fn builtin_action(history: Seq<Seq<char>>, st: Seq<Seq<char>>) -> ActionView {
    let name = st[0];
    let args = st.drop_first();
    if name == word_pwd() {
        ActionView::PrintWorkingDirectory
    } else if name == word_cd() {
        if args.len() == 1 {
            ActionView::ChangeDirectory(args[0])
        } else {
            ActionView::Report(wrong_parameters())
        }
    } else if name == word_exit() {
        ActionView::Exit
    } else if name == word_history() {
        ActionView::Print(history_listing(history))
    } else if name == word_kill() {
        if args.len() >= 1 && parse_i32_spec(args[0]) is Some {
            ActionView::Terminate(parse_i32_spec(args[0])->0)
        } else {
            ActionView::Report(wrong_parameters())
        }
    } else {
        ActionView::ListJobs
    }
}

/// What the shell does with the line `line`, given the lines entered before.
/// A line of one built-in command runs it in the shell (ignoring redirection
/// and `&`); any other line runs as a command line, under the job line made of
/// its words without `&`, joined by single spaces.
pub open spec fn decide(history: Seq<Seq<char>>, line: Seq<char>) -> ActionView {
    let ws = words(line);
    if ws.len() == 0 {
        ActionView::Nothing
    } else {
        match parse_words(ws) {
            None => ActionView::Report(syntax_error()),
            Some(cl) => if cl.stages.len() == 1 && is_builtin(cl.stages[0][0]) {
                builtin_action(history, cl.stages[0])
            } else {
                ActionView::Run(cl, join_words(strip_background(ws).0))
            },
        }
    }
}

/// The shell's memory: the lines entered so far.
pub struct Shell {
    history: Vec<Vec<char>>,
}

impl View for Shell {
    type V = Seq<Seq<char>>;

    closed spec fn view(&self) -> Seq<Seq<char>> {
        self.history@.map_values(|l: Vec<char>| l@)
    }
}

/// Whether `w` spells the characters `lit`.
fn is_word(w: &Vec<char>, lit: &[char]) -> (b: bool)
    ensures
        b == (w@ == lit@),
{
    same_chars(w.as_slice(), lit)
}

/// The characters of `lit` in a vector.
fn chars_of(lit: &[char]) -> (r: Vec<char>)
    ensures
        r@ == lit@,
{
    let mut r: Vec<char> = Vec::new();
    let mut i: usize = 0;
    while i < lit.len()
        invariant
            i <= lit.len(),
            r@ == lit@.take(i as int),
        decreases lit.len() - i,
    {
        r.push(lit[i]);
        i = i + 1;
        proof {
            assert(r@ =~= lit@.take(i as int));
        }
    }
    assert(lit@.take(lit.len() as int) =~= lit@);
    r
}

/// The message for wrong arguments to a built-in command.
fn wrong_parameters_message() -> (m: Vec<char>)
    ensures
        m@ == wrong_parameters(),
{
    let a = ['W', 'r', 'o', 'n', 'g', ' ', 'p', 'a', 'r', 'a', 'm', 'e', 't', 'e', 'r', 's'];
    let m = chars_of(&a);
    assert(m@ =~= wrong_parameters());
    m
}

/// The message for a command that has no name.
fn syntax_error_message() -> (m: Vec<char>)
    ensures
        m@ == syntax_error(),
{
    let a = ['s', 'y', 'n', 't', 'a', 'x', ' ', 'e', 'r', 'r', 'o', 'r'];
    let m = chars_of(&a);
    assert(m@ =~= syntax_error());
    m
}

/// The history entry numbered `n`.
pub fn format_history_entry(n: u64, line: &Vec<char>) -> (r: Vec<char>)
    ensures
        r@ == history_entry(n as nat, line@),
{
    let digits = format_decimal(n);
    let mut r = pad_left_exec(digits.as_slice(), 5);
    let ghost before = r@;
    r.push(' ');
    r.push(' ');
    let mut i: usize = 0;
    while i < line.len()
        invariant
            i <= line.len(),
            r@ == before + seq![' ', ' '] + line@.take(i as int),
        decreases line.len() - i,
    {
        r.push(line[i]);
        i = i + 1;
        proof {
            assert(r@ =~= before + seq![' ', ' '] + line@.take(i as int));
        }
    }
    proof {
        assert(line@.take(line.len() as int) =~= line@);
    }
    r
}

/// The lines that `history` prints for the lines `h`.
pub fn format_history(h: &Vec<Vec<char>>) -> (r: Vec<Vec<char>>)
    ensures
        r@.map_values(|l: Vec<char>| l@) == history_listing(h@.map_values(|l: Vec<char>| l@)),
{
    let ghost hv = h@.map_values(|l: Vec<char>| l@);
    let mut r: Vec<Vec<char>> = Vec::new();
    let mut i: usize = 0;
    while i < h.len()
        invariant
            i <= h.len(),
            hv == h@.map_values(|l: Vec<char>| l@),
            r@.map_values(|l: Vec<char>| l@) == history_listing(hv).take(i as int),
        decreases h.len() - i,
    {
        let e = format_history_entry(i as u64 + 1, &h[i]);
        let ghost before = r@;
        r.push(e);
        proof {
            assert(r@.map_values(|l: Vec<char>| l@) =~= before.map_values(|l: Vec<char>| l@).push(
                e@,
            ));
            assert(r@.map_values(|l: Vec<char>| l@) =~= history_listing(hv).take(i as int + 1));
        }
        i = i + 1;
    }
    proof {
        assert(history_listing(hv).take(h.len() as int) =~= history_listing(hv));
    }
    r
}

impl Shell {
    /// A shell with no lines entered.
    pub fn new() -> (sh: Shell)
        ensures
            sh@ == Seq::<Seq<char>>::empty(),
    {
        let sh = Shell { history: Vec::new() };
        assert(sh@ =~= Seq::<Seq<char>>::empty());
        sh
    }

    /// The lines that `history` prints now.
    pub fn history(&self) -> (r: Vec<Vec<char>>)
        ensures
            r@.map_values(|l: Vec<char>| l@) == history_listing(self@),
    {
        format_history(&self.history)
    }

    /// Decides what to do with the line `raw` (its final newline, if any,
    /// removed), then adds the line to the history.
    pub fn handle_line(&mut self, raw: &[char]) -> (a: Action)
        ensures
            a@ == decide(old(self)@, line_body(raw@)),
            final(self)@ == old(self)@.push(line_body(raw@)),
    {
        let n = if raw.len() > 0 && raw[raw.len() - 1] == '\n' {
            raw.len() - 1
        } else {
            raw.len()
        };
        let mut line: Vec<char> = Vec::new();
        let mut i: usize = 0;
        while i < n
            invariant
                i <= n <= raw.len(),
                line@ == raw@.take(i as int),
            decreases n - i,
        {
            line.push(raw[i]);
            i = i + 1;
            proof {
                assert(line@ =~= raw@.take(i as int));
            }
        }
        proof {
            assert(line@ =~= line_body(raw@));
        }
        let a = self.decide_line(&line);
        let ghost before = self.history@;
        self.history.push(line);
        proof {
            assert(self@ =~= before.map_values(|l: Vec<char>| l@).push(line@));
        }
        a
    }

    /// What to do with the line `line`.
    fn decide_line(&self, line: &Vec<char>) -> (a: Action)
        ensures
            a@ == decide(self@, line@),
    {
        let ws = split_words(line.as_slice());
        assert(words_view(ws@) == words(line@));
        if ws.len() == 0 {
            return Action::Nothing;
        }
        match parse_command_line(&ws) {
            None => Action::Report(syntax_error_message()),
            Some(cl) => {
                if cl.stages.len() == 1 && cl.stages[0].len() > 0 && self.is_builtin_word(
                    &cl.stages[0][0],
                ) {
                    proof {
                        assert(cl@.stages[0] == words_view(cl.stages@[0]@));
                        assert(cl@.stages[0][0] == cl.stages@[0]@[0]@);
                    }
                    self.builtin(&cl.stages[0])
                } else {
                    proof {
                        if cl.stages.len() == 1 {
                            assert(cl@.stages[0] == words_view(cl.stages@[0]@));
                            if cl.stages[0].len() > 0 {
                                assert(cl@.stages[0][0] == cl.stages@[0]@[0]@);
                            }
                        }
                    }
                    let job_line = job_line_of(&ws);
                    Action::Run(cl, job_line)
                }
            },
        }
    }

    /// Whether `w` names a built-in command.
    pub fn is_builtin_word(&self, w: &Vec<char>) -> (b: bool)
        ensures
            b == is_builtin(w@),
    {
        proof {
            assert(['p', 'w', 'd']@ =~= word_pwd());
            assert(['c', 'd']@ =~= word_cd());
            assert(['e', 'x', 'i', 't']@ =~= word_exit());
            assert(['h', 'i', 's', 't', 'o', 'r', 'y']@ =~= word_history());
            assert(['k', 'i', 'l', 'l']@ =~= word_kill());
            assert(['j', 'o', 'b', 's']@ =~= word_jobs());
        }
        is_word(w, &['p', 'w', 'd']) || is_word(w, &['c', 'd']) || is_word(w, &['e', 'x', 'i', 't'])
            || is_word(w, &['h', 'i', 's', 't', 'o', 'r', 'y']) || is_word(
            w,
            &['k', 'i', 'l', 'l'],
        ) || is_word(w, &['j', 'o', 'b', 's'])
    }

    /// What the built-in command with words `st` does.
    pub fn builtin(&self, st: &Vec<Vec<char>>) -> (a: Action)
        requires
            st.len() > 0,
            is_builtin(st@[0]@),
        ensures
            a@ == builtin_action(self@, words_view(st@)),
    {
        let ghost sv = words_view(st@);
        assert(sv[0] == st@[0]@);
        assert(sv.drop_first().len() == st.len() - 1);
        let name = &st[0];
        if is_word(name, &['p', 'w', 'd']) {
            assert(['p', 'w', 'd']@ =~= word_pwd());
            Action::PrintWorkingDirectory
        } else if is_word(name, &['c', 'd']) {
            assert(['c', 'd']@ =~= word_cd());
            assert(!(name@ == word_pwd()));
            if st.len() == 2 {
                assert(sv.drop_first()[0] == st@[1]@);
                Action::ChangeDirectory(crate::command::copy_word(&st[1]))
            } else {
                Action::Report(wrong_parameters_message())
            }
        } else if is_word(name, &['e', 'x', 'i', 't']) {
            assert(['e', 'x', 'i', 't']@ =~= word_exit());
            assert(['c', 'd']@ =~= word_cd());
            assert(['p', 'w', 'd']@ =~= word_pwd());
            Action::Exit
        } else if is_word(name, &['h', 'i', 's', 't', 'o', 'r', 'y']) {
            assert(['h', 'i', 's', 't', 'o', 'r', 'y']@ =~= word_history());
            assert(['e', 'x', 'i', 't']@ =~= word_exit());
            assert(['c', 'd']@ =~= word_cd());
            assert(['p', 'w', 'd']@ =~= word_pwd());
            Action::Print(format_history(&self.history))
        } else if is_word(name, &['k', 'i', 'l', 'l']) {
            assert(['k', 'i', 'l', 'l']@ =~= word_kill());
            assert(['h', 'i', 's', 't', 'o', 'r', 'y']@ =~= word_history());
            assert(['e', 'x', 'i', 't']@ =~= word_exit());
            assert(['c', 'd']@ =~= word_cd());
            assert(['p', 'w', 'd']@ =~= word_pwd());
            if st.len() >= 2 {
                assert(sv.drop_first()[0] == st@[1]@);
                match parse_i32(st[1].as_slice()) {
                    Some(pid) => Action::Terminate(pid),
                    None => Action::Report(wrong_parameters_message()),
                }
            } else {
                Action::Report(wrong_parameters_message())
            }
        } else {
            assert(['k', 'i', 'l', 'l']@ =~= word_kill());
            assert(['h', 'i', 's', 't', 'o', 'r', 'y']@ =~= word_history());
            assert(['e', 'x', 'i', 't']@ =~= word_exit());
            assert(['c', 'd']@ =~= word_cd());
            assert(['p', 'w', 'd']@ =~= word_pwd());
            Action::ListJobs
        }
    }
}

/// The line under which a background command line is listed by `jobs`: its
/// words without a final `&`, joined by single spaces.
pub fn job_line_of(ws: &Vec<Vec<char>>) -> (r: Vec<char>)
    ensures
        r@ == join_words(strip_background(words_view(ws@)).0),
{
    let mut end = ws.len();
    if end > 0 && crate::command::is_amp(&ws[end - 1]) {
        end = end - 1;
    }
    let mut kept: Vec<Vec<char>> = Vec::new();
    let mut i: usize = 0;
    while i < end
        invariant
            i <= end <= ws.len(),
            words_view(kept@) == words_view(ws@).take(i as int),
        decreases end - i,
    {
        let w = crate::command::copy_word(&ws[i]);
        let ghost before = kept@;
        kept.push(w);
        proof {
            assert(words_view(kept@) =~= words_view(before).push(w@));
            assert(words_view(ws@).take(i as int + 1) =~= words_view(ws@).take(i as int).push(
                ws@[i as int]@,
            ));
        }
        i = i + 1;
    }
    proof {
        assert(words_view(kept@) =~= strip_background(words_view(ws@)).0);
    }
    join_with_spaces(&kept)
}


/// Entry `n` of the history listing is the number right-aligned in five
/// places (more when it has more digits), two spaces, and the line: when the
/// number has fewer than five digits, the entry starts with as many spaces as
/// make up the difference.
pub proof fn lemma_history_entry_layout(n: nat, line: Seq<char>)
    ensures
        ({
            let d = decimal(n);
            let e = history_entry(n, line);
            let w: int = if d.len() >= 5 {
                d.len() as int
            } else {
                5
            };
            &&& e.len() == w + 2 + line.len()
            &&& forall|i: int| 0 <= i < w - d.len() ==> #[trigger] e[i] == ' '
            &&& e.subrange(w - d.len(), w) == d
            &&& e[w] == ' ' && e[w + 1] == ' '
            &&& e.subrange(w + 2, e.len() as int) == line
        }),
{
    let d = decimal(n);
    let p = pad_left(d, 5);
    crate::text::lemma_pad_left_right_aligns(d, 5);
    let e = history_entry(n, line);
    let w: int = p.len() as int;
    assert forall|i: int| 0 <= i < w - d.len() implies #[trigger] e[i] == ' ' by {
        assert(e[i] == p[i]);
    }
    assert(e.subrange(w - d.len(), w) =~= p.subrange(w - d.len(), w));
    assert(e.subrange(w + 2, e.len() as int) =~= line);
}

} // verus!
