//! Display text for notes and lists.
use crate::list::List;
use crate::note::{Note, NoteView};
use crate::text::{chars_of, string_of, trim, trim_of, words};
use vstd::prelude::*;
use vstd::string::*;

verus! {

/// `l` without one `'\r'` at its end.
pub open spec fn strip_cr(l: Seq<char>) -> Seq<char> {
    if l.len() > 0 && l.last() == '\r' {
        l.drop_last()
    } else {
        l
    }
}

/// Reading `s` from the start: the lines ended by a `'\n'` so far (each without
/// a `'\r'` just before its `'\n'`), and the part of a line read after them.
pub open spec fn scan_lines(s: Seq<char>) -> (Seq<Seq<char>>, Seq<char>)
    decreases s.len(),
{
    if s.len() == 0 {
        (Seq::empty(), Seq::empty())
    } else {
        let (done, cur) = scan_lines(s.drop_last());
        if s.last() == '\n' {
            (done.push(strip_cr(cur)), Seq::empty())
        } else {
            (done, cur.push(s.last()))
        }
    }
}

/// The lines of `s`: split at each `'\n'` or `"\r\n"`; a last line is there
/// only where it is not empty.
pub open spec fn lines_of(s: Seq<char>) -> Seq<Seq<char>> {
    let (done, cur) = scan_lines(s);
    if cur.len() == 0 {
        done
    } else {
        done.push(cur)
    }
}

pub open spec fn spaces(w: nat) -> Seq<char> {
    Seq::new(w, |i: int| ' ')
}

/// Each line of `ls` after `w` spaces, each ended by a `'\n'`.
pub open spec fn indent_lines(ls: Seq<Seq<char>>, w: nat) -> Seq<char>
    decreases ls.len(),
{
    if ls.len() == 0 {
        Seq::empty()
    } else {
        indent_lines(ls.drop_last(), w) + spaces(w) + ls.last() + seq!['\n']
    }
}

/// The lines of `ls` each ended by a `'\n'`, every line but the first after
/// `w` spaces.
pub open spec fn hanging(ls: Seq<Seq<char>>, w: nat) -> Seq<char> {
    if ls.len() == 0 {
        Seq::empty()
    } else {
        ls[0] + seq!['\n'] + indent_lines(ls.drop_first(), w)
    }
}

pub open spec fn digit_char(d: int) -> char {
    if d == 0 { '0' }
    else if d == 1 { '1' }
    else if d == 2 { '2' }
    else if d == 3 { '3' }
    else if d == 4 { '4' }
    else if d == 5 { '5' }
    else if d == 6 { '6' }
    else if d == 7 { '7' }
    else if d == 8 { '8' }
    else { '9' }
}

/// The decimal digits of `n`, without leading zeros.
pub open spec fn decimal(n: nat) -> Seq<char>
    decreases n,
{
    if n < 10 {
        seq![digit_char(n as int)]
    } else {
        decimal(n / 10).push(digit_char((n % 10) as int))
    }
}

/// The text of a note: its flag in brackets (`#` where checked), a dash, and
/// its lines, the later ones indented by six spaces.
pub open spec fn note_text(n: NoteView) -> Seq<char> {
    let mark = if n.checked { '#' } else { ' ' };
    seq!['[', mark, ']', ' ', '-', ' '] + trim_of(hanging(lines_of(trim_of(n.text)), 6))
}

/// The lines `ls` of the note numbered `k`, after its number and a space, the
/// later lines indented by `w` spaces.
pub open spec fn numbered(k: nat, ls: Seq<Seq<char>>, w: nat) -> Seq<char> {
    if ls.len() == 0 {
        Seq::empty()
    } else {
        decimal(k) + seq![' '] + hanging(ls, w)
    }
}

/// The texts `t`, each after its 1-based number, their later lines indented
/// by `w` spaces.
pub open spec fn numbered_texts(t: Seq<Seq<char>>, w: nat) -> Seq<char>
    decreases t.len(),
{
    if t.len() == 0 {
        Seq::empty()
    } else {
        numbered_texts(t.drop_last(), w) + numbered(t.len(), lines_of(t.last()), w)
    }
}

/// The width of the numbers of `n` notes and one space.
pub open spec fn number_width(n: nat) -> nat {
    decimal(n).len() + 1
}

/// The texts of the notes of `s`.
pub open spec fn note_texts(s: Seq<NoteView>) -> Seq<Seq<char>> {
    s.map_values(|n: NoteView| note_text(n))
}

/// The text of a list: empty where it has no notes; else its notes in order,
/// each after its 1-based number, later lines aligned one space past the width
/// of the largest number.
pub open spec fn list_text(s: Seq<NoteView>) -> Seq<char> {
    if s.len() == 0 {
        Seq::empty()
    } else {
        trim_of(numbered_texts(note_texts(s), number_width(s.len())))
    }
}

pub open spec fn lines_view(v: Seq<Vec<char>>) -> Seq<Seq<char>> {
    v.map_values(|l: Vec<char>| l@)
}

fn push_all(buf: &mut Vec<char>, src: &Vec<char>)
    ensures
        final(buf)@ == old(buf)@ + src@,
{
    let mut i: usize = 0;
    while i < src.len()
        invariant
            i <= src.len(),
            buf@ == old(buf)@ + src@.take(i as int),
        decreases src.len() - i,
    {
        buf.push(src[i]);
        i = i + 1;
        assert(buf@ =~= old(buf)@ + src@.take(i as int));
    }
    assert(src@.take(i as int) =~= src@);
}

fn push_spaces(buf: &mut Vec<char>, w: usize)
    ensures
        final(buf)@ == old(buf)@ + spaces(w as nat),
{
    let mut i: usize = 0;
    while i < w
        invariant
            i <= w,
            buf@ == old(buf)@ + spaces(i as nat),
        decreases w - i,
    {
        buf.push(' ');
        i = i + 1;
        assert(buf@ =~= old(buf)@ + spaces(i as nat));
    }
}

/// The lines of `s`, as `lines_of` states them.
fn split_lines(s: &Vec<char>) -> (r: Vec<Vec<char>>)
    ensures
        lines_view(r@) == lines_of(s@),
{
    let mut done: Vec<Vec<char>> = Vec::new();
    let mut cur: Vec<char> = Vec::new();
    let mut i: usize = 0;
    while i < s.len()
        invariant
            i <= s.len(),
            (lines_view(done@), cur@) == scan_lines(s@.take(i as int)),
        decreases s.len() - i,
    {
        assert(s@.take(i as int + 1).drop_last() =~= s@.take(i as int));
        let c = s[i];
        if c == '\n' {
            let n = cur.len();
            if n > 0 && cur[n - 1] == '\r' {
                cur.pop();
            }
            let line = cur;
            done.push(line);
            cur = Vec::new();
            assert(lines_view(done@) =~= scan_lines(s@.take(i as int + 1)).0);
        } else {
            cur.push(c);
        }
        i = i + 1;
    }
    assert(s@.take(i as int) =~= s@);
    if cur.len() > 0 {
        done.push(cur);
        assert(lines_view(done@) =~= lines_of(s@));
    }
    done
}

/// Appends the lines `ls` each ended by a `'\n'`, all but the first after `w`
/// spaces.
fn push_hanging(buf: &mut Vec<char>, ls: &Vec<Vec<char>>, w: usize)
    ensures
        final(buf)@ == old(buf)@ + hanging(lines_view(ls@), w as nat),
{
    if ls.len() == 0 {
        assert(buf@ =~= old(buf)@ + hanging(lines_view(ls@), w as nat));
        return;
    }
    push_all(buf, &ls[0]);
    buf.push('\n');
    let ghost start = buf@;
    let ghost rest = lines_view(ls@).drop_first();
    let mut i: usize = 1;
    while i < ls.len()
        invariant
            1 <= i <= ls.len(),
            rest == lines_view(ls@).drop_first(),
            buf@ == start + indent_lines(rest.take(i - 1), w as nat),
        decreases ls.len() - i,
    {
        assert(rest.take(i as int).drop_last() =~= rest.take(i - 1));
        push_spaces(buf, w);
        push_all(buf, &ls[i]);
        buf.push('\n');
        i = i + 1;
        assert(buf@ =~= start + indent_lines(rest.take(i - 1), w as nat));
    }
    assert(rest.take(i - 1) =~= rest);
    assert(buf@ =~= old(buf)@ + hanging(lines_view(ls@), w as nat));
}

fn digit(d: usize) -> (c: char)
    requires
        d < 10,
    ensures
        c == digit_char(d as int),
{
    if d == 0 { '0' }
    else if d == 1 { '1' }
    else if d == 2 { '2' }
    else if d == 3 { '3' }
    else if d == 4 { '4' }
    else if d == 5 { '5' }
    else if d == 6 { '6' }
    else if d == 7 { '7' }
    else if d == 8 { '8' }
    else { '9' }
}

/// The decimal digits of `n`.
fn decimal_chars(n: usize) -> (r: Vec<char>)
    ensures
        r@ == decimal(n as nat),
    decreases n,
{
    if n < 10 {
        let mut r: Vec<char> = Vec::new();
        r.push(digit(n));
        assert(r@ =~= decimal(n as nat));
        r
    } else {
        let mut r = decimal_chars(n / 10);
        r.push(digit(n % 10));
        r
    }
}

proof fn lemma_decimal_len(n: nat)
    ensures
        decimal(n).len() >= 1,
        n < 10 ==> decimal(n).len() == 1,
        n >= 10 ==> decimal(n).len() < n,
    decreases n,
{
    if n >= 10 {
        lemma_decimal_len(n / 10);
    }
}

/// The lines of `text`, each ended by a `'\n'`, all but the first after `w`
/// spaces.
pub fn hang_lines(text: &str, w: usize) -> (r: String)
    ensures
        r@ == hanging(lines_of(text@), w as nat),
{
    let chars = chars_of(text);
    let ls = split_lines(&chars);
    let mut buf: Vec<char> = Vec::new();
    push_hanging(&mut buf, &ls, w);
    string_of(&buf)
}

/// The texts `texts`, each after its 1-based number and a space; their later
/// lines are indented to one space past the width of the largest number.
pub fn number_texts(texts: &Vec<String>) -> (r: String)
    ensures
        r@ == numbered_texts(words(texts@), number_width(texts.len() as nat)),
{
    let n = texts.len();
    proof {
        lemma_decimal_len(n as nat);
    }
    let width = decimal_chars(n).len() + 1;
    let mut buf: Vec<char> = Vec::new();
    let mut i: usize = 0;
    while i < n
        invariant
            n == texts.len(),
            i <= n,
            width == number_width(n as nat),
            buf@ == numbered_texts(words(texts@).take(i as int), width as nat),
        decreases n - i,
    {
        assert(words(texts@).take(i as int + 1).drop_last() =~= words(texts@).take(i as int));
        let chars = chars_of(texts[i].as_str());
        let ls = split_lines(&chars);
        if ls.len() > 0 {
            let number = decimal_chars(i + 1);
            push_all(&mut buf, &number);
            buf.push(' ');
            push_hanging(&mut buf, &ls, width);
        }
        i = i + 1;
        assert(buf@ =~= numbered_texts(words(texts@).take(i as int), width as nat));
    }
    assert(words(texts@).take(n as int) =~= words(texts@));
    string_of(&buf)
}

impl Note {
    /// The display text of this note.
    pub fn render(&self) -> (r: String)
        ensures
            r@ == note_text(self@),
    {
        let text = trim(self.text.as_str());
        let body = trim(hang_lines(text.as_str(), 6).as_str());
        let mut head: Vec<char> = Vec::new();
        head.push('[');
        head.push(if self.checked { '#' } else { ' ' });
        head.push(']');
        head.push(' ');
        head.push('-');
        head.push(' ');
        let mut r = string_of(&head);
        r.append(body.as_str());
        assert(r@ =~= note_text(self@));
        r
    }
}

impl List {
    /// The display text of this list.
    pub fn render(&self) -> (r: String)
        ensures
            r@ == list_text(self@),
    {
        let n = self.notes.len();
        if n == 0 {
            return String::new();
        }
        let mut texts: Vec<String> = Vec::new();
        let mut i: usize = 0;
        while i < n
            invariant
                n == self.notes.len(),
                i <= n,
                texts.len() == i,
                words(texts@) == note_texts(self@.take(i as int)),
            decreases n - i,
        {
            let t = self.notes[i].render();
            let ghost before = texts@;
            assert(self@[i as int] == self.notes@[i as int]@);
            texts.push(t);
            assert forall|j: int| 0 <= j <= i implies words(texts@)[j] == note_texts(
                self@.take(i as int + 1),
            )[j] by {
                if j < i {
                    assert(words(before)[j] == note_texts(self@.take(i as int))[j]);
                }
            }
            assert(words(texts@) =~= note_texts(self@.take(i as int + 1)));
            i = i + 1;
        }
        assert(self@.take(n as int) =~= self@);
        trim(number_texts(&texts).as_str())
    }
}

} // verus!
