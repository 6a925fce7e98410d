use vstd::prelude::*;

use crate::text::same_chars;

verus! {

/// The word `&`, which sends a command line to the background.
pub open spec fn amp() -> Seq<char> {
    seq!['&']
}

/// The word `<`, which reads the first command's input from a file.
pub open spec fn lt() -> Seq<char> {
    seq!['<']
}

/// The word `>`, which writes the last command's output to a file.
pub open spec fn gt() -> Seq<char> {
    seq!['>']
}

/// The word `|`, which joins two commands by a pipe.
pub open spec fn bar() -> Seq<char> {
    seq!['|']
}

/// A parsed command line, as mathematics.
pub struct LineView {
    pub stages: Seq<Seq<Seq<char>>>,
    pub input: Option<Seq<char>>,
    pub output: Option<Seq<char>>,
    pub background: bool,
}

/// A command line: commands joined by pipes, each a name and its arguments,
/// with the first command's input and the last command's output optionally
/// taken from and sent to files, run in the foreground or the background.
pub struct CommandLine {
    /// The words of each command, in pipe order; none is empty.
    pub stages: Vec<Vec<Vec<char>>>,
    /// The file after `<`, which the first command reads.
    pub input: Option<Vec<char>>,
    /// The file after `>`, which the last command writes.
    pub output: Option<Vec<char>>,
    /// Whether the line ended in `&`.
    pub background: bool,
}

/// The characters of each word.
pub open spec fn words_view(ws: Seq<Vec<char>>) -> Seq<Seq<char>> {
    ws.map_values(|w: Vec<char>| w@)
}

/// The characters of each word of each stage.
pub open spec fn stages_view(st: Seq<Vec<Vec<char>>>) -> Seq<Seq<Seq<char>>> {
    st.map_values(|s: Vec<Vec<char>>| words_view(s@))
}

/// The characters of an optional word.
pub open spec fn opt_view(o: Option<Vec<char>>) -> Option<Seq<char>> {
    match o {
        Some(w) => Some(w@),
        None => None,
    }
}

impl View for CommandLine {
    type V = LineView;

    open spec fn view(&self) -> LineView {
        LineView {
            stages: stages_view(self.stages@),
            input: opt_view(self.input),
            output: opt_view(self.output),
            background: self.background,
        }
    }
}

/// The words without a final `&`, and whether there was one.
pub open spec fn strip_background(ws: Seq<Seq<char>>) -> (Seq<Seq<char>>, bool) {
    if ws.len() > 0 && ws.last() == amp() {
        (ws.drop_last(), true)
    } else {
        (ws, false)
    }
}

/// The words without a final `> file`, and the file if there was one.
pub open spec fn strip_output(ws: Seq<Seq<char>>) -> (Seq<Seq<char>>, Option<Seq<char>>) {
    if ws.len() >= 2 && ws[ws.len() - 2] == gt() {
        (ws.take(ws.len() - 2), Some(ws.last()))
    } else {
        (ws, None)
    }
}

/// The groups of words between the words `|`: one more group than there are
/// bars, each possibly empty.
pub open spec fn split_pipes(ws: Seq<Seq<char>>) -> Seq<Seq<Seq<char>>>
    decreases ws.len(),
{
    if ws.len() == 0 {
        seq![Seq::empty()]
    } else {
        let g = split_pipes(ws.drop_last());
        if ws.last() == bar() {
            g.push(Seq::empty())
        } else {
            g.update(g.len() - 1, g.last().push(ws.last()))
        }
    }
}

/// The place, from `i` on, of the first `<` that a file name follows.
pub open spec fn find_input(st: Seq<Seq<char>>, i: int) -> Option<int>
    decreases st.len() - i,
{
    if i < 0 || i + 1 >= st.len() {
        None
    } else if st[i] == lt() {
        Some(i)
    } else {
        find_input(st, i + 1)
    }
}

/// The first command without its `< file`, and the file if there was one.
pub open spec fn strip_input(st: Seq<Seq<char>>) -> (Seq<Seq<char>>, Option<Seq<char>>) {
    match find_input(st, 0) {
        Some(k) => (st.take(k) + st.skip(k + 2), Some(st[k + 1])),
        None => (st, None),
    }
}

/// The command line that the words `ws` form, if every command in it has a
/// name: `CommandLine = Command [ "<" FileName ] { "|" Command } [ ">" FileName ] [ "&" ]`.
pub open spec fn parse_words(ws: Seq<Seq<char>>) -> Option<LineView> {
    let (a, background) = strip_background(ws);
    let (b, output) = strip_output(a);
    let groups = split_pipes(b);
    let (first, input) = strip_input(groups[0]);
    let stages = groups.update(0, first);
    if exists|i: int| 0 <= i < stages.len() && #[trigger] stages[i].len() == 0 {
        None
    } else {
        Some(LineView { stages, input, output, background })
    }
}

/// A copy of `w`.
pub fn copy_word(w: &Vec<char>) -> (r: Vec<char>)
    ensures
        r@ == w@,
{
    let r = w.clone();
    assert(r@ =~= w@);
    r
}

/// Whether `w` is the word `&`.
pub fn is_amp(w: &Vec<char>) -> (b: bool)
    ensures
        b == (w@ == amp()),
{
    let a = ['&'];
    assert(a@ =~= amp());
    same_chars(w.as_slice(), &a)
}

/// Whether `w` is the word `<`.
pub fn is_lt(w: &Vec<char>) -> (b: bool)
    ensures
        b == (w@ == lt()),
{
    let a = ['<'];
    assert(a@ =~= lt());
    same_chars(w.as_slice(), &a)
}

/// Whether `w` is the word `>`.
pub fn is_gt(w: &Vec<char>) -> (b: bool)
    ensures
        b == (w@ == gt()),
{
    let a = ['>'];
    assert(a@ =~= gt());
    same_chars(w.as_slice(), &a)
}

/// Whether `w` is the word `|`.
pub fn is_bar(w: &Vec<char>) -> (b: bool)
    ensures
        b == (w@ == bar()),
{
    let a = ['|'];
    assert(a@ =~= bar());
    same_chars(w.as_slice(), &a)
}


/// The view of an optional command line.
pub open spec fn opt_line_view(o: Option<CommandLine>) -> Option<LineView> {
    match o {
        Some(c) => Some(c@),
        None => None,
    }
}

/// Appends copies of the words `ws[lo..hi]` to `r`.
fn append_words(r: &mut Vec<Vec<char>>, ws: &Vec<Vec<char>>, lo: usize, hi: usize)
    requires
        lo <= hi <= ws.len(),
    ensures
        words_view(final(r)@) == words_view(old(r)@) + words_view(ws@).subrange(
            lo as int,
            hi as int,
        ),
{
    let mut i = lo;
    while i < hi
        invariant
            lo <= i <= hi,
            hi <= ws.len(),
            words_view(r@) == words_view(old(r)@) + words_view(ws@).subrange(lo as int, i as int),
        decreases hi - i,
    {
        let w = copy_word(&ws[i]);
        let ghost before = r@;
        r.push(w);
        proof {
            assert(words_view(r@) =~= words_view(before).push(w@));
            assert(words_view(ws@).subrange(lo as int, i + 1) =~= words_view(ws@).subrange(
                lo as int,
                i as int,
            ).push(ws@[i as int]@));
        }
        i = i + 1;
    }
}

/// Splits the words `ws[0..end]` at the words `|`.
fn split_at_bars(ws: &Vec<Vec<char>>, end: usize) -> (groups: Vec<Vec<Vec<char>>>)
    requires
        end <= ws.len(),
    ensures
        stages_view(groups@) == split_pipes(words_view(ws@).take(end as int)),
        groups.len() >= 1,
{
    let ghost b = words_view(ws@).take(end as int);
    let mut groups: Vec<Vec<Vec<char>>> = Vec::new();
    let mut cur: Vec<Vec<char>> = Vec::new();
    let mut i: usize = 0;
    assert(b.take(0) =~= Seq::<Seq<char>>::empty());
    assert(stages_view(groups@) =~= Seq::<Seq<Seq<char>>>::empty());
    assert(words_view(cur@) =~= Seq::<Seq<char>>::empty());
    assert(stages_view(groups@).push(words_view(cur@)) =~= seq![Seq::<Seq<char>>::empty()]);
    while i < end
        invariant
            i <= end <= ws.len(),
            b == words_view(ws@).take(end as int),
            stages_view(groups@).push(words_view(cur@)) == split_pipes(b.take(i as int)),
        decreases end - i,
    {
        let ghost prev = b.take(i as int);
        let ghost next = b.take(i as int + 1);
        assert(next.drop_last() =~= prev);
        assert(next.last() == ws@[i as int]@);
        let ghost g = split_pipes(prev);
        if is_bar(&ws[i]) {
            let done = cur;
            cur = Vec::new();
            let ghost before = groups@;
            groups.push(done);
            proof {
                assert(stages_view(groups@) =~= stages_view(before).push(words_view(done@)));
                assert(words_view(cur@) =~= Seq::<Seq<char>>::empty());
                assert(stages_view(groups@).push(words_view(cur@)) =~= g.push(Seq::empty()));
            }
        } else {
            let w = copy_word(&ws[i]);
            let ghost before = cur@;
            cur.push(w);
            proof {
                assert(words_view(cur@) =~= words_view(before).push(w@));
                assert(stages_view(groups@).push(words_view(cur@)) =~= g.update(
                    g.len() - 1,
                    g.last().push(w@),
                ));
            }
        }
        i = i + 1;
    }
    proof {
        assert(b.take(end as int) =~= b);
    }
    let ghost before = groups@;
    let ghost last = cur@;
    groups.push(cur);
    proof {
        assert(stages_view(groups@) =~= stages_view(before).push(words_view(last)));
    }
    groups
}

/// Parses the words of a command line (`CommandLine = Command [ "<" FileName ]
/// { "|" Command } [ ">" FileName ] [ "&" ]`).  Gives `None` when a command of
/// the line has no name.
pub fn parse_command_line(ws: &Vec<Vec<char>>) -> (r: Option<CommandLine>)
    ensures
        opt_line_view(r) == parse_words(words_view(ws@)),
{
    let ghost wv = words_view(ws@);
    let mut end = ws.len();
    let background = end > 0 && is_amp(&ws[end - 1]);
    if background {
        end = end - 1;
    }
    let ghost a = strip_background(wv).0;
    assert(a =~= wv.take(end as int));
    let mut output: Option<Vec<char>> = None;
    if end >= 2 && is_gt(&ws[end - 2]) {
        output = Some(copy_word(&ws[end - 1]));
        end = end - 2;
    }
    let ghost bsp = strip_output(a).0;
    assert(bsp =~= wv.take(end as int));
    assert(strip_output(a).1 == opt_view(output));
    let mut groups = split_at_bars(ws, end);
    let first = &groups[0];
    let ghost st = words_view(first@);
    let input = match find_input_exec(first) {
        Some(k) => {
            let mut stripped: Vec<Vec<char>> = Vec::new();
            append_words(&mut stripped, first, 0, k);
            append_words(&mut stripped, first, k + 2, first.len());
            let file = copy_word(&first[k + 1]);
            proof {
                assert(words_view(stripped@) =~= st.take(k as int) + st.skip(k + 2));
            }
            groups[0] = stripped;
            Some(file)
        },
        None => None,
    };
    proof {
        assert(stages_view(groups@) =~= split_pipes(bsp).update(
            0,
            strip_input(split_pipes(bsp)[0]).0,
        ));
    }
    if all_named(&groups) {
        Some(CommandLine { stages: groups, input, output, background })
    } else {
        None
    }
}

/// The place of the first `<` in `st` that a file name follows.
fn find_input_exec(st: &Vec<Vec<char>>) -> (r: Option<usize>)
    ensures
        match r {
            Some(k) => find_input(words_view(st@), 0) == Some(k as int) && k + 1 < st.len(),
            None => find_input(words_view(st@), 0) is None,
        },
{
    let ghost sv = words_view(st@);
    let mut k: usize = 0;
    while k < st.len() && k + 1 < st.len()
        invariant
            sv == words_view(st@),
            find_input(sv, 0) == find_input(sv, k as int),
        decreases st.len() - k,
    {
        if is_lt(&st[k]) {
            return Some(k);
        }
        k = k + 1;
    }
    None
}

/// Whether every command has at least one word.
fn all_named(groups: &Vec<Vec<Vec<char>>>) -> (b: bool)
    ensures
        b == !(exists|i: int|
            0 <= i < stages_view(groups@).len() && #[trigger] stages_view(groups@)[i].len() == 0),
{
    let mut j: usize = 0;
    while j < groups.len()
        invariant
            j <= groups.len(),
            forall|i: int| 0 <= i < j ==> #[trigger] stages_view(groups@)[i].len() > 0,
        decreases groups.len() - j,
    {
        if groups[j].len() == 0 {
            assert(stages_view(groups@)[j as int].len() == 0);
            return false;
        }
        j = j + 1;
    }
    true
}

} // verus!
