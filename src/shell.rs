use vstd::prelude::*;
use vstd::string::{StrSliceExecFns, StringExecFns};
use crate::text::{push_char, trim, trim_of};
use crate::vga_buffer::{blank, Color, ColorCode, Writer, BUFFER_CELLS};


verus! {

/// Levenshtein distance: the fewest insertions, deletions and
/// substitutions of one character that turn `a` into `b`.
pub open spec fn edit_distance(a: Seq<char>, b: Seq<char>) -> nat
    decreases a.len() + b.len(),
{
    if a.len() == 0 {
        b.len()
    } else if b.len() == 0 {
        a.len()
    } else {
        let cost: nat = if a.last() == b.last() { 0 } else { 1 };
        let del = edit_distance(a.drop_last(), b) + 1;
        let ins = edit_distance(a, b.drop_last()) + 1;
        let sub = edit_distance(a.drop_last(), b.drop_last()) + cost;
        if del <= ins && del <= sub {
            del
        } else if ins <= sub {
            ins
        } else {
            sub
        }
    }
}

proof fn lemma_edit_distance_bound(a: Seq<char>, b: Seq<char>)
    ensures
        edit_distance(a, b) <= a.len() + b.len(),
    decreases a.len() + b.len(),
{
    if a.len() > 0 && b.len() > 0 {
        lemma_edit_distance_bound(a.drop_last(), b);
    }
}

/// The characters of `s`.
fn chars_of(s: &str) -> (r: Vec<char>)
    ensures
        r@ == s@,
{
    let n = s.unicode_len();
    let mut r: Vec<char> = Vec::new();
    let mut i: usize = 0;
    while i < n
        invariant
            n == s@.len(),
            i <= n,
            r@ == s@.subrange(0, i as int),
        decreases n - i,
    {
        r.push(s.get_char(i));
        i += 1;
        assert(r@ =~= s@.subrange(0, i as int));
    }
    assert(r@ =~= s@);
    r
}

/// The edit distance between `a` and `b`.
pub fn compute_edit_distance(a: &str, b: &str) -> (r: usize)
    requires
        a@.len() + b@.len() < usize::MAX,
    ensures
        r == edit_distance(a@, b@),
{
    let ca = chars_of(a);
    let cb = chars_of(b);
    let n = ca.len();
    let m = cb.len();
    let ghost sa = ca@;
    let ghost sb = cb@;
    assert(n + m < usize::MAX);
    // cur[j] is the distance between the first i characters of a and the
    // first j of b.
    let mut cur: Vec<usize> = Vec::new();
    let mut j: usize = 0;
    while j <= m
        invariant
            m == sb.len(),
            m < usize::MAX,
            j <= m + 1,
            cur@.len() == j,
            forall|k: int|
                0 <= k < j ==> cur@[k] == edit_distance(
                    sa.subrange(0, 0),
                    #[trigger] sb.subrange(0, k),
                ),
        decreases m + 1 - j,
    {
        cur.push(j);
        j += 1;
    }
    let mut i: usize = 0;
    while i < n
        invariant
            n == sa.len(),
            m == sb.len(),
            n + m < usize::MAX,
            i <= n,
            ca@ == sa,
            cb@ == sb,
            cur@.len() == m + 1,
            forall|k: int|
                0 <= k <= m ==> cur@[k] == edit_distance(
                    sa.subrange(0, i as int),
                    #[trigger] sb.subrange(0, k),
                ),
        decreases n - i,
    {
        let ghost pa = sa.subrange(0, i as int);
        let ghost na = sa.subrange(0, i + 1);
        assert(na.drop_last() =~= pa);
        let mut pre = cur[0];
        cur.set(0, i + 1);
        assert(cur@[0] == edit_distance(na, sb.subrange(0, 0)));
        let mut j: usize = 0;
        while j < m
            invariant
                n == sa.len(),
                m == sb.len(),
                n + m < usize::MAX,
                i < n,
                j <= m,
                ca@ == sa,
                cb@ == sb,
                pa == sa.subrange(0, i as int),
                na == sa.subrange(0, i + 1),
                na.drop_last() == pa,
                cur@.len() == m + 1,
                pre == edit_distance(pa, sb.subrange(0, j as int)),
                forall|k: int|
                    0 <= k <= j ==> cur@[k] == edit_distance(na, #[trigger] sb.subrange(0, k)),
                forall|k: int|
                    j < k <= m ==> cur@[k] == edit_distance(pa, #[trigger] sb.subrange(0, k)),
            decreases m - j,
        {
            let ghost pb = sb.subrange(0, j as int);
            let ghost nb = sb.subrange(0, j + 1);
            assert(nb.drop_last() =~= pb);
            let tmp = cur[j + 1];
            proof {
                lemma_edit_distance_bound(pa, nb);
                lemma_edit_distance_bound(na, pb);
                lemma_edit_distance_bound(pa, pb);
            }
            let cost: usize = if ca[i] == cb[j] { 0 } else { 1 };
            let del = tmp + 1;
            let ins = cur[j] + 1;
            let sub = pre + cost;
            let best = if del <= ins && del <= sub {
                del
            } else if ins <= sub {
                ins
            } else {
                sub
            };
            cur.set(j + 1, best);
            pre = tmp;
            j += 1;
        }
        i += 1;
    }
    assert(sa.subrange(0, n as int) =~= sa);
    assert(sb.subrange(0, m as int) =~= sb);
    cur[m]
}

/// The pieces of `s` between single spaces, as `str::split(" ")` gives
/// them: consecutive spaces give empty pieces.
pub open spec fn split_spaces(s: Seq<char>) -> Seq<Seq<char>>
    decreases s.len(),
{
    if s.len() == 0 {
        seq![Seq::empty()]
    } else {
        let p = split_spaces(s.drop_last());
        if s.last() == ' ' {
            p.push(Seq::empty())
        } else {
            p.update(p.len() - 1, p.last().push(s.last()))
        }
    }
}

proof fn lemma_split_nonempty(s: Seq<char>)
    ensures
        split_spaces(s).len() >= 1,
    decreases s.len(),
{
    if s.len() > 0 {
        lemma_split_nonempty(s.drop_last());
    }
}

/// The prompt that every line of the shell begins with.
pub open spec fn prompt() -> Seq<char> {
    seq!['>', '>', '>', ' ']
}

/// The words of the command on a console line: the line must begin with the
/// prompt, and what follows, trimmed, must not be empty.
pub open spec fn command_words(line: Seq<char>) -> Option<Seq<Seq<char>>> {
    if line.len() >= 4 && line.subrange(0, 4) == prompt() {
        let rest = trim_of(line.subrange(4, line.len() as int));
        if rest.len() == 0 {
            None
        } else {
            Some(split_spaces(rest))
        }
    } else {
        None
    }
}

/// The commands of the shell.
#[derive(Debug, Clone, Copy, PartialEq, Eq, Structural)]
pub enum CommandKind {
    Help,
    Info,
    Echo,
    Shutdown,
    Clear,
    /// A word that names no command.
    Unknown,
}

/// The command that `word` names.
pub open spec fn kind_of(word: Seq<char>) -> CommandKind {
    if word == "help"@ {
        CommandKind::Help
    } else if word == "info"@ {
        CommandKind::Info
    } else if word == "echo"@ {
        CommandKind::Echo
    } else if word == "shutdown"@ {
        CommandKind::Shutdown
    } else if word == "clear"@ {
        CommandKind::Clear
    } else {
        CommandKind::Unknown
    }
}

/// A command line taken apart: what it asks for and all its words, the
/// command's own word first.
pub struct Command {
    pub kind: CommandKind,
    pub words: Vec<String>,
}

fn is_word(s: &String, w: &str) -> (r: bool)
    ensures
        r == (s@ == w@),
{
    let t = String::from_str(w);
    s.eq(&t)
}

fn command_kind(word: &String) -> (r: CommandKind)
    ensures
        r == kind_of(word@),
{
    if is_word(word, "help") {
        CommandKind::Help
    } else if is_word(word, "info") {
        CommandKind::Info
    } else if is_word(word, "echo") {
        CommandKind::Echo
    } else if is_word(word, "shutdown") {
        CommandKind::Shutdown
    } else if is_word(word, "clear") {
        CommandKind::Clear
    } else {
        CommandKind::Unknown
    }
}

/// The pieces of `s` between single spaces.
fn split_spaces_exec(s: &Vec<char>) -> (r: Vec<String>)
    ensures
        r@.len() == split_spaces(s@).len(),
        forall|k: int| 0 <= k < r@.len() ==> (#[trigger] r@[k])@ == split_spaces(s@)[k],
{
    let mut pieces: Vec<String> = Vec::new();
    let mut current = String::new();
    let mut i: usize = 0;
    while i < s.len()
        invariant
            i <= s@.len(),
            pieces@.len() + 1 == split_spaces(s@.subrange(0, i as int)).len(),
            forall|k: int|
                0 <= k < pieces@.len() ==> (#[trigger] pieces@[k])@ == split_spaces(
                    s@.subrange(0, i as int),
                )[k],
            current@ == split_spaces(s@.subrange(0, i as int)).last(),
        decreases s@.len() - i,
    {
        let ghost before = s@.subrange(0, i as int);
        assert(s@.subrange(0, i + 1).drop_last() =~= before);
        proof {
            lemma_split_nonempty(before);
        }
        let c = s[i];
        if c == ' ' {
            pieces.push(current);
            current = String::new();
        } else {
            push_char(&mut current, c);
        }
        i += 1;
    }
    assert(s@.subrange(0, i as int) =~= s@);
    pieces.push(current);
    pieces
}

/// Takes apart a console line handed over on Enter: `None` unless it holds
/// the prompt and a command after it.
pub fn evaluate(line: &str) -> (r: Option<Command>)
    ensures
        r is Some == command_words(line@) is Some,
        r matches Some(c) ==> {
            &&& c.words@.len() == command_words(line@).unwrap().len()
            &&& forall|k: int|
                0 <= k < c.words@.len() ==> (#[trigger] c.words@[k])@ == command_words(
                    line@,
                ).unwrap()[k]
            &&& c.kind == kind_of(command_words(line@).unwrap()[0])
        },
{
    let chars = chars_of(line);
    if chars.len() < 4 || chars[0] != '>' || chars[1] != '>' || chars[2] != '>' || chars[3]
        != ' ' {
        proof {
            if line@.len() >= 4 {
                assert(line@.subrange(0, 4)[0] == line@[0]);
                assert(line@.subrange(0, 4)[1] == line@[1]);
                assert(line@.subrange(0, 4)[2] == line@[2]);
                assert(line@.subrange(0, 4)[3] == line@[3]);
            }
        }
        return None;
    }
    assert(line@.subrange(0, 4) =~= prompt());
    let mut rest = String::new();
    let mut i: usize = 4;
    while i < chars.len()
        invariant
            chars@ == line@,
            4 <= i <= chars@.len(),
            rest@ == line@.subrange(4, i as int),
        decreases chars@.len() - i,
    {
        push_char(&mut rest, chars[i]);
        i += 1;
        assert(rest@ =~= line@.subrange(4, i as int));
    }
    let trimmed = trim(&rest);
    let tchars = chars_of(trimmed.as_str());
    if tchars.len() == 0 {
        return None;
    }
    let words = split_spaces_exec(&tchars);
    proof {
        lemma_split_nonempty(tchars@);
    }
    let kind = command_kind(&words[0]);
    Some(Command { kind, words })
}

/// The commands of the shell, in the order suggestions prefer them.
pub open spec fn command_names() -> Seq<Seq<char>> {
    seq!["help"@, "info"@, "echo"@, "shutdown"@, "clear"@]
}

/// The command to suggest for an unknown `word`: the first of the list at
/// the least edit distance from it.
pub fn suggest(word: &str) -> (r: usize)
    requires
        word@.len() + 8 < usize::MAX,
    ensures
        r < command_names().len(),
        forall|k: int|
            0 <= k < command_names().len() ==> edit_distance(word@, command_names()[r as int])
                <= edit_distance(word@, #[trigger] command_names()[k]),
        forall|k: int|
            0 <= k < r ==> edit_distance(word@, command_names()[r as int]) < edit_distance(
                word@,
                #[trigger] command_names()[k],
            ),
{
    let names: [&str; 5] = ["help", "info", "echo", "shutdown", "clear"];
    proof {
        reveal_strlit("help");
        reveal_strlit("info");
        reveal_strlit("echo");
        reveal_strlit("shutdown");
        reveal_strlit("clear");
    }
    assert(command_names()[0].len() == 4);
    let mut best: usize = 0;
    let mut best_distance = compute_edit_distance(word, names[0]);
    let mut k: usize = 1;
    while k < 5
        invariant
            word@.len() + 8 < usize::MAX,
            names@ == seq!["help", "info", "echo", "shutdown", "clear"],
            forall|j: int| 0 <= j < 5 ==> (#[trigger] names@[j])@ == command_names()[j],
            1 <= k <= 5,
            best < k,
            best_distance == edit_distance(word@, command_names()[best as int]),
            forall|j: int|
                0 <= j < k ==> best_distance <= edit_distance(word@, #[trigger] command_names()[j]),
            forall|j: int|
                0 <= j < best ==> best_distance < edit_distance(word@, #[trigger] command_names()[j]),
        decreases 5 - k,
    {
        proof {
            reveal_strlit("help");
            reveal_strlit("info");
            reveal_strlit("echo");
            reveal_strlit("shutdown");
            reveal_strlit("clear");
            assert(command_names()[k as int].len() <= 8);
        }
        let d = compute_edit_distance(word, names[k]);
        if d < best_distance {
            best = k;
            best_distance = d;
        }
        k += 1;
    }
    best
}

/// Blanks every cell of the console in white on black.
pub fn clear(writer: &mut Writer)
    requires
        old(writer).wf(),
    ensures
        final(writer).wf(),
        final(writer).view().chars == Seq::new(
            BUFFER_CELLS as nat,
            |i: int| blank(ColorCode::spec_new(Color::White, Color::Black)),
        ),
        final(writer).view().column == old(writer).view().column,
        final(writer).view().color == old(writer).view().color,
{
    let color = ColorCode::new(Color::White, Color::Black);
    writer.fill(color);
}

/// What `echo` prints for a command's words: each word after the first,
/// followed by a space.
pub open spec fn echo_of(words: Seq<Seq<char>>) -> Seq<char>
    decreases words.len(),
{
    if words.len() <= 1 {
        Seq::empty()
    } else {
        echo_of(words.drop_last()) + words.last() + seq![' ']
    }
}

/// The text `echo` prints for `words`, the command's own word first.
pub fn echo_text(words: &Vec<String>) -> (r: String)
    ensures
        r@ == echo_of(words@.map_values(|w: String| w@)),
{
    let ghost views = words@.map_values(|w: String| w@);
    let mut r = String::new();
    if words.len() == 0 {
        return r;
    }
    let mut i: usize = 1;
    assert(views.subrange(0, 1).len() == 1);
    while i < words.len()
        invariant
            1 <= i <= words@.len(),
            views == words@.map_values(|w: String| w@),
            r@ == echo_of(views.subrange(0, i as int)),
        decreases words@.len() - i,
    {
        assert(views.subrange(0, i + 1).drop_last() =~= views.subrange(0, i as int));
        r.append(words[i].as_str());
        push_char(&mut r, ' ');
        i += 1;
    }
    assert(views.subrange(0, i as int) =~= views);
    r
}

} // verus!
