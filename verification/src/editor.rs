//! The in-app editor for a whole environment, shown as a `.env` document.
//!
//! Lines are edited directly under a cursor; on save the text is parsed back
//! and replaces the environment's contents.

use vstd::prelude::*;
use indexmap::IndexMap;
use crate::text::{to_chars, from_chars, push_str, split_on, split_chars, string_of};
use crate::collections::secret_entries;
use crate::envfile::{serialize, serialized, parsed, parse_lines, parse_line, writable, law_serialize_then_parse};
use crate::text::{trim_start, trim_end, lemma_trim_start_skip, is_ws};
use crate::commands::{alphanumeric, is_alphanumeric};
use vstd::utf8::{encode_utf8, encode_scalar};

verus! {

/// The characters of each line.
pub open spec fn rows_of(ls: Seq<String>) -> Seq<Seq<char>> {
    ls.map_values(|s: String| s@)
}

/// `l` with `c` inserted before position `i`.
pub open spec fn insert_at(l: Seq<char>, i: int, c: char) -> Seq<char> {
    l.take(i).push(c) + l.skip(i)
}

/// `l` without the character at position `i`.
pub open spec fn remove_at(l: Seq<char>, i: int) -> Seq<char> {
    l.take(i) + l.skip(i + 1)
}

/// A line without the `\r` that may end it.
pub open spec fn strip_cr(l: Seq<char>) -> Seq<char> {
    if l.len() > 0 && l.last() == '\r' {
        l.drop_last()
    } else {
        l
    }
}

/// The lines of `s` as `str::lines` gives them: split at `\n`, without a
/// final empty line after a closing `\n`, each without a trailing `\r`.
pub open spec fn text_lines(s: Seq<char>) -> Seq<Seq<char>> {
    let parts = split_on(s, '\n');
    let kept = if s.len() == 0 {
        Seq::<Seq<char>>::empty()
    } else if s.last() == '\n' {
        parts.drop_last()
    } else {
        parts
    };
    kept.map_values(|l: Seq<char>| strip_cr(l))
}

/// The lines joined with `\n` between them.
pub open spec fn joined(rows: Seq<Seq<char>>) -> Seq<char>
    decreases rows.len(),
{
    if rows.len() == 0 {
        Seq::empty()
    } else if rows.len() == 1 {
        rows[0]
    } else {
        joined(rows.drop_last()) + seq!['\n'] + rows.last()
    }
}

/// The lines an editor opens with for a `.env` text: its lines, or one
/// empty line when it has none.
pub open spec fn opening_rows(text: Seq<char>) -> Seq<Seq<char>> {
    if text_lines(text).len() == 0 {
        seq![Seq::<char>::empty()]
    } else {
        text_lines(text)
    }
}

/// The lines of `text`, as `str::lines` gives them.
pub fn lines_of(text: &str) -> (ls: Vec<String>)
    ensures
        rows_of(ls@) == text_lines(text@),
{
    let cs = to_chars(text);
    let parts = split_chars(&cs, '\n');
    let ghost ps = parts@.map_values(|p: Vec<char>| p@);
    let n = cs.len();
    let keep = if n == 0 {
        0
    } else if cs[n - 1] == '\n' {
        proof {
            crate::text::lemma_split_on_len(cs@, '\n');
        }
        parts.len() - 1
    } else {
        parts.len()
    };
    let mut ls: Vec<String> = Vec::new();
    let mut i: usize = 0;
    while i < keep
        invariant
            keep <= parts.len(),
            ps == parts@.map_values(|p: Vec<char>| p@),
            i <= keep,
            rows_of(ls@) == ps.take(i as int).map_values(|l: Seq<char>| strip_cr(l)),
        decreases keep - i,
    {
        let p = &parts[i];
        let m = p.len();
        let l = if m > 0 && p[m - 1] == '\r' {
            from_chars(p, 0, m - 1)
        } else {
            string_of(p)
        };
        assert(p@ == ps[i as int]);
        assert(l@ == strip_cr(ps[i as int]));
        let ghost before = rows_of(ls@);
        ls.push(l);
        assert(rows_of(ls@) =~= before.push(strip_cr(ps[i as int])));
        assert(ps.take(i + 1).map_values(|l: Seq<char>| strip_cr(l)) =~= ps.take(i as int).map_values(
            |l: Seq<char>| strip_cr(l),
        ).push(strip_cr(ps[i as int])));
        i = i + 1;
    }
    proof {
        let kept = if cs@.len() == 0 {
            Seq::<Seq<char>>::empty()
        } else if cs@.last() == '\n' {
            ps.drop_last()
        } else {
            ps
        };
        assert(ps.take(keep as int) =~= kept);
    }
    ls
}

/// The lines joined with `\n` between them, as `[String]::join` gives them.
pub fn join_lines(ls: &Vec<String>) -> (s: String)
    ensures
        s@ == joined(rows_of(ls@)),
{
    let mut s = String::new();
    let mut i: usize = 0;
    while i < ls.len()
        invariant
            i <= ls.len(),
            s@ == joined(rows_of(ls@).take(i as int)),
        decreases ls.len() - i,
    {
        let ghost r = rows_of(ls@).take(i + 1);
        assert(r.drop_last() =~= rows_of(ls@).take(i as int));
        assert(r.last() == ls@[i as int]@);
        if i > 0 {
            s.push('\n');
        }
        push_str(&mut s, ls[i].as_str());
        if i == 0 {
            assert(s@ =~= r[0]);
        } else {
            assert(s@ =~= joined(r.drop_last()) + seq!['\n'] + r.last());
        }
        i = i + 1;
    }
    assert(rows_of(ls@).take(ls.len() as int) =~= rows_of(ls@));
    s
}

/// A multi-line editor over one environment's `.env` text.
pub struct EnvEditor {
    pub project: String,
    pub env: String,
    pub lines: Vec<String>,
    /// Cursor column, as a character index within the current line.
    pub cx: usize,
    /// Cursor row.
    pub cy: usize,
}

impl EnvEditor {
    /// An editor over `values` written as `.env` text, with the cursor at
    /// the start.
    pub fn open(project: String, env: String, values: &IndexMap<String, String>) -> (ed: EnvEditor)
        ensures
            ed.wf(),
            ed.project == project,
            ed.env == env,
            ed.rows() == opening_rows(serialized(secret_entries(*values))),
            ed.cx == 0,
            ed.cy == 0,
    {
        let text = serialize(values);
        let mut lines = lines_of(text.as_str());
        if lines.len() == 0 {
            lines.push(String::new());
            assert(rows_of(lines@) =~= seq![Seq::<char>::empty()]);
        }
        EnvEditor { project, env, lines, cx: 0, cy: 0 }
    }

    /// The whole text: the lines joined with `\n`.
    pub fn text(&self) -> (s: String)
        ensures
            s@ == joined(self.rows()),
    {
        join_lines(&self.lines)
    }

    /// The text of each line.
    pub open spec fn rows(&self) -> Seq<Seq<char>> {
        rows_of(self.lines@)
    }

    /// The cursor is on an existing line, at or before its end.
    pub open spec fn wf(&self) -> bool {
        &&& self.cy < self.lines@.len()
        &&& self.cx <= self.rows()[self.cy as int].len()
    }

    /// The editor with different lines and cursor, and the same target.
    pub open spec fn moved_to(&self, other: &EnvEditor, rows: Seq<Seq<char>>, cx: int, cy: int) -> bool {
        &&& other.project == self.project
        &&& other.env == self.env
        &&& other.rows() == rows
        &&& other.cx == cx
        &&& other.cy == cy
    }

    /// The number of lines.
    fn line_count(&self) -> (n: usize)
        ensures
            n == self.lines@.len(),
    {
        self.lines.len()
    }

    /// The length of the current line, in characters.
    pub fn cur_len(&self) -> (n: usize)
        requires
            self.cy < self.lines@.len(),
        ensures
            n == self.rows()[self.cy as int].len(),
    {
        to_chars(self.lines[self.cy].as_str()).len()
    }

    /// Whether the cursor is on an existing line, at or before its end.
    pub fn is_wf(&self) -> (b: bool)
        ensures
            b == self.wf(),
    {
        self.cy < self.lines.len() && self.cx <= self.cur_len()
    }

    /// Replace line `i` by `s`.
    fn set_line(&mut self, i: usize, s: String)
        requires
            i < old(self).lines@.len(),
        ensures
            final(self).rows() == old(self).rows().update(i as int, s@),
            final(self).lines@.len() == old(self).lines@.len(),
            final(self).cx == old(self).cx,
            final(self).cy == old(self).cy,
            final(self).project == old(self).project,
            final(self).env == old(self).env,
    {
        self.lines.set(i, s);
        assert(rows_of(self.lines@) =~= rows_of(old(self).lines@).update(i as int, s@));
    }

    /// Insert `c` at the cursor and move past it.
    pub fn insert_char(&mut self, c: char)
        requires
            old(self).wf(),
            old(self).cx < usize::MAX,
        ensures
            char_inserted(old(self), final(self), c),
    {
        let cs = to_chars(self.lines[self.cy].as_str());
        let mut s = from_chars(&cs, 0, self.cx);
        s.push(c);
        let rest = from_chars(&cs, self.cx, cs.len());
        push_str(&mut s, rest.as_str());
        let ghost l = cs@;
        assert(l == old(self).rows()[old(self).cy as int]);
        assert(s@ =~= insert_at(l, self.cx as int, c));
        let cy = self.cy;
        self.set_line(cy, s);
        self.cx = self.cx + 1;
    }

    /// Split the current line at the cursor; the cursor goes to the start of
    /// the new line.
    pub fn insert_newline(&mut self)
        requires
            old(self).wf(),
        ensures
            line_split(old(self), final(self)),
    {
        let cs = to_chars(self.lines[self.cy].as_str());
        assert(cs@ == old(self).rows()[old(self).cy as int]);
        let head = from_chars(&cs, 0, self.cx);
        let tail = from_chars(&cs, self.cx, cs.len());
        let cy = self.cy;
        let count = self.line_count();
        assert(cy + 1 <= count);
        self.set_line(cy, head);
        let ghost mid = rows_of(self.lines@);
        self.lines.insert(cy + 1, tail);
        assert(rows_of(self.lines@) =~= mid.insert(cy + 1, tail@));
        self.cy = cy + 1;
        self.cx = 0;
        assert(self.rows() =~= old(self).rows().take(cy as int)
            + seq![old(self).rows()[cy as int].take(old(self).cx as int), old(self).rows()[cy as int].skip(old(self).cx as int)]
            + old(self).rows().skip(cy + 1));
    }

    /// Delete the character before the cursor; at the start of a line, join
    /// it to the previous one.
    pub fn backspace(&mut self)
        requires
            old(self).wf(),
        ensures
            backspaced(old(self), final(self)),
    {
        if self.cx > 0 {
            let cs = to_chars(self.lines[self.cy].as_str());
            assert(cs@ == old(self).rows()[old(self).cy as int]);
            let mut s = from_chars(&cs, 0, self.cx - 1);
            let rest = from_chars(&cs, self.cx, cs.len());
            push_str(&mut s, rest.as_str());
            assert(s@ =~= remove_at(cs@, self.cx - 1));
            let cy = self.cy;
            self.set_line(cy, s);
            self.cx = self.cx - 1;
        } else if self.cy > 0 {
            let cy = self.cy;
            let cur = self.lines.remove(cy);
            let ghost r0 = rows_of(old(self).lines@);
            assert(rows_of(self.lines@) =~= r0.remove(cy as int));
            self.cy = cy - 1;
            let n = self.cur_len();
            let mut prev = self.lines[cy - 1].clone();
            assert(prev@ == r0[cy - 1]);
            assert(cur@ == r0[cy as int]);
            push_str(&mut prev, cur.as_str());
            self.set_line(cy - 1, prev);
            self.cx = n;
        }
    }

    /// Delete the character under the cursor; at the end of a line, join the
    /// next line to it.
    pub fn delete_forward(&mut self)
        requires
            old(self).wf(),
        ensures
            deleted_forward(old(self), final(self)),
            cursor_offset(old(self)) < joined(old(self).rows()).len() ==> joined(final(self).rows()) == remove_at(
                joined(old(self).rows()),
                cursor_offset(old(self)),
            ),
            cursor_offset(old(self)) >= joined(old(self).rows()).len() ==> joined(final(self).rows()) == joined(
                old(self).rows(),
            ),
    {
        let n = self.cur_len();
        if self.cx < n {
            let cs = to_chars(self.lines[self.cy].as_str());
            assert(cs@ == old(self).rows()[old(self).cy as int]);
            let mut s = from_chars(&cs, 0, self.cx);
            let rest = from_chars(&cs, self.cx + 1, cs.len());
            push_str(&mut s, rest.as_str());
            assert(s@ =~= remove_at(cs@, self.cx as int));
            let cy = self.cy;
            self.set_line(cy, s);
        } else if self.cy < self.line_count() - 1 {
            let cy = self.cy;
            let next = self.lines.remove(cy + 1);
            let ghost r0 = rows_of(old(self).lines@);
            assert(rows_of(self.lines@) =~= r0.remove(cy + 1));
            let mut cur = self.lines[cy].clone();
            assert(cur@ == r0[cy as int]);
            assert(next@ == r0[cy + 1]);
            push_str(&mut cur, next.as_str());
            self.set_line(cy, cur);
        }
        proof {
            law_delete_forward_text(*old(self), *self);
        }
    }

    /// Move the cursor one character left, or to the end of the previous line.
    pub fn move_left(&mut self)
        requires
            old(self).wf(),
        ensures
            moved_left(old(self), final(self)),
    {
        if self.cx > 0 {
            self.cx = self.cx - 1;
        } else if self.cy > 0 {
            self.cy = self.cy - 1;
            self.cx = self.cur_len();
        }
    }

    /// Move the cursor one character right, or to the start of the next line.
    pub fn move_right(&mut self)
        requires
            old(self).wf(),
        ensures
            moved_right(old(self), final(self)),
    {
        if self.cx < self.cur_len() {
            self.cx = self.cx + 1;
        } else if self.cy < self.line_count() - 1 {
            self.cy = self.cy + 1;
            self.cx = 0;
        }
    }

    /// Move the cursor one line up, keeping the column where the line allows.
    pub fn move_up(&mut self)
        requires
            old(self).wf(),
        ensures
            moved_up(old(self), final(self)),
    {
        if self.cy > 0 {
            self.cy = self.cy - 1;
            let n = self.cur_len();
            if n < self.cx {
                self.cx = n;
            }
        }
    }

    /// Move the cursor one line down, keeping the column where the line allows.
    pub fn move_down(&mut self)
        requires
            old(self).wf(),
        ensures
            moved_down(old(self), final(self)),
    {
        if self.cy < self.line_count() - 1 {
            self.cy = self.cy + 1;
            let n = self.cur_len();
            if n < self.cx {
                self.cx = n;
            }
        }
    }
}


// --- the external editor's document ----------------------------------------

/// The comment lines above the entries in the document handed to an
/// external editor.
pub open spec fn template_header(project: Seq<char>, env: Seq<char>) -> Seq<char> {
    "# dev-secrets \u{2014} editing "@ + project + "/"@ + env + "\n"@
        + "# Edit as a normal .env file: KEY=VALUE per line.\n"@
        + "# Lines you remove are deleted; blank lines and # comments are ignored.\n"@
        + "# References like ${project.env.KEY} are kept as-is and resolved on export.\n"@
        + "# Save and quit to apply, or quit without saving to cancel.\n\n"@
}

/// The `.env` document shown to the user in an external editor: a comment
/// header, then the entries.
pub fn editor_template(project: &str, env: &str, values: &IndexMap<String, String>) -> (out: String)
    ensures
        out@ == template_header(project@, env@) + serialized(secret_entries(*values)),
{
    let mut out = String::new();
    push_str(&mut out, "# dev-secrets \u{2014} editing ");
    push_str(&mut out, project);
    push_str(&mut out, "/");
    push_str(&mut out, env);
    push_str(&mut out, "\n");
    push_str(&mut out, "# Edit as a normal .env file: KEY=VALUE per line.\n");
    push_str(&mut out, "# Lines you remove are deleted; blank lines and # comments are ignored.\n");
    push_str(&mut out, "# References like ${project.env.KEY} are kept as-is and resolved on export.\n");
    push_str(&mut out, "# Save and quit to apply, or quit without saving to cancel.\n\n");
    let body = serialize(values);
    push_str(&mut out, body.as_str());
    out
}

/// A name with every character that is not alphanumeric replaced by `_`.
pub open spec fn sanitized(s: Seq<char>) -> Seq<char> {
    s.map_values(|c: char| if alphanumeric(c) { c } else { '_' })
}

/// Replace the characters that are awkward in a file name.
pub fn sanitize(s: &str) -> (r: String)
    ensures
        r@ == sanitized(s@),
{
    let mut r = String::new();
    let ghost src = s@;
    for c in it: s.chars()
        invariant
            src == s@,
            it.seq() == src,
            r@ == sanitized(it.seq().take(it.index() as int)),
    {
        let ghost i = it.index();
        if is_alphanumeric(c) {
            r.push(c);
        } else {
            r.push('_');
        }
        assert(it.seq().take(i + 1) =~= it.seq().take(i as int).push(c));
        assert(sanitized(it.seq().take(i + 1)) =~= sanitized(it.seq().take(i as int)).push(
            if alphanumeric(c) { c } else { '_' },
        ));
    }
    assert(src.take(src.len() as int) =~= src);
    r
}

/// The decimal digits of `n`.
pub open spec fn decimal(n: nat) -> Seq<char>
    decreases n,
{
    if n < 10 {
        seq![digit_char(n)]
    } else {
        decimal(n / 10).push(digit_char(n % 10))
    }
}

/// The character of one decimal digit.
pub open spec fn digit_char(d: nat) -> char {
    if d == 0 { '0' } else if d == 1 { '1' } else if d == 2 { '2' } else if d == 3 { '3' } else if d == 4 {
        '4'
    } else if d == 5 { '5' } else if d == 6 { '6' } else if d == 7 { '7' } else if d == 8 { '8' } else { '9' }
}

fn digit_of(d: u64) -> (c: char)
    requires
        d < 10,
    ensures
        c == digit_char(d as nat),
{
    if d == 0 { '0' } else if d == 1 { '1' } else if d == 2 { '2' } else if d == 3 { '3' } else if d == 4 {
        '4'
    } else if d == 5 { '5' } else if d == 6 { '6' } else if d == 7 { '7' } else if d == 8 { '8' } else { '9' }
}

/// `n` written in decimal.
pub fn decimal_text(n: u64) -> (s: String)
    ensures
        s@ == decimal(n as nat),
    decreases n,
{
    if n < 10 {
        let mut s = String::new();
        s.push(digit_of(n));
        assert(s@ =~= seq![digit_char(n as nat)]);
        s
    } else {
        let mut s = decimal_text(n / 10);
        s.push(digit_of(n % 10));
        s
    }
}

/// The name of the temporary file that an environment is edited in.
pub open spec fn edit_file_name(project: Seq<char>, env: Seq<char>, pid: nat) -> Seq<char> {
    "devsecrets-"@ + sanitized(project) + "-"@ + sanitized(env) + "-"@ + decimal(pid) + ".env"@
}

/// The name of the temporary file for editing `project/env` from process
/// `pid`: `devsecrets-<project>-<env>-<pid>.env`, with the names sanitised.
pub fn edit_file(project: &str, env: &str, pid: u32) -> (s: String)
    ensures
        s@ == edit_file_name(project@, env@, pid as nat),
{
    let mut s = String::new();
    push_str(&mut s, "devsecrets-");
    let p = sanitize(project);
    push_str(&mut s, p.as_str());
    push_str(&mut s, "-");
    let e = sanitize(env);
    push_str(&mut s, e.as_str());
    push_str(&mut s, "-");
    let d = decimal_text(pid as u64);
    push_str(&mut s, d.as_str());
    push_str(&mut s, ".env");
    s
}

// --- byte offsets ------------------------------------------------------------

/// Encoding a concatenation encodes each part in turn.
pub proof fn lemma_encode_utf8_concat(a: Seq<char>, b: Seq<char>)
    ensures
        encode_utf8(a + b) == encode_utf8(a) + encode_utf8(b),
    decreases a.len(),
{
    if a.len() == 0 {
        assert(a + b =~= b);
        assert(encode_utf8(a) + encode_utf8(b) =~= encode_utf8(b));
    } else {
        lemma_encode_utf8_concat(a.drop_first(), b);
        assert((a + b).drop_first() =~= a.drop_first() + b);
        assert((a + b)[0] == a[0]);
        assert(encode_scalar(a[0] as u32) + (encode_utf8(a.drop_first()) + encode_utf8(b)) =~= encode_scalar(
            a[0] as u32,
        ) + encode_utf8(a.drop_first()) + encode_utf8(b));
    }
}

/// The number of bytes that encode `c` in UTF-8.
pub fn utf8_width(c: char) -> (n: usize)
    ensures
        n == encode_scalar(c as u32).len(),
{
    proof {
        vstd::utf8::char_is_scalar(c);
    }
    let v = c as u32;
    if v < 0x80 {
        1
    } else if v < 0x800 {
        2
    } else if v < 0x10000 {
        3
    } else {
        4
    }
}

/// Byte offset of the `n`-th character of `s`, or the length of `s` in
/// bytes when it has no more than `n` characters.
pub fn char_byte_idx(s: &str, n: usize) -> (b: usize)
    ensures
        b == encode_utf8(s@.take(if n < s@.len() { n as int } else { s@.len() as int })).len(),
{
    let total = s.as_bytes().len();
    let ghost chars = s@;
    let mut b: usize = 0;
    let mut i: usize = 0;
    for c in it: s.chars()
        invariant
            chars == s@,
            it.seq() == chars,
            i == it.index(),
            i <= n,
            total == encode_utf8(chars).len(),
            b == encode_utf8(chars.take(i as int)).len(),
    {
        if i == n {
            return b;
        }
        proof {
            let t = chars.take(i + 1);
            assert(t =~= chars.take(i as int) + seq![c]);
            lemma_encode_utf8_concat(chars.take(i as int), seq![c]);
            assert(encode_utf8(seq![c]) =~= encode_scalar(c as u32)) by {
                assert(seq![c].drop_first() =~= Seq::<char>::empty());
                assert(seq![c][0] == c);
                assert(encode_utf8(Seq::<char>::empty()) =~= Seq::<u8>::empty());
                assert(encode_scalar(c as u32) + Seq::<u8>::empty() =~= encode_scalar(c as u32));
            }
            assert(chars =~= t + chars.skip(i + 1));
            lemma_encode_utf8_concat(t, chars.skip(i + 1));
        }
        b = b + utf8_width(c);
        i = i + 1;
    }
    assert(chars.take(chars.len() as int) =~= chars);
    b
}

// --- transitions ----------------------------------------------------------------

/// `c` was inserted at the cursor, which moved past it.
pub open spec fn char_inserted(a: &EnvEditor, b: &EnvEditor, c: char) -> bool {
    &&& b.wf()
    &&& a.moved_to(
        b,
        a.rows().update(a.cy as int, insert_at(a.rows()[a.cy as int], a.cx as int, c)),
        a.cx + 1,
        a.cy as int,
    )
}

/// The current line was split at the cursor.
pub open spec fn line_split(a: &EnvEditor, b: &EnvEditor) -> bool {
    &&& b.wf()
    &&& a.moved_to(
        b,
        a.rows().take(a.cy as int)
        + seq![a.rows()[a.cy as int].take(a.cx as int), a.rows()[a.cy as int].skip(a.cx as int)]
        + a.rows().skip(a.cy + 1),
        0,
        a.cy + 1,
    )
}

/// The character before the cursor was deleted, or the line joined to the previous one.
pub open spec fn backspaced(a: &EnvEditor, b: &EnvEditor) -> bool {
    &&& b.wf()
    &&& a.cx > 0 ==> a.moved_to(
        b,
        a.rows().update(a.cy as int, remove_at(a.rows()[a.cy as int], a.cx - 1)),
        a.cx - 1,
        a.cy as int,
    )
    &&& a.cx == 0 && a.cy > 0 ==> a.moved_to(
        b,
        a.rows().remove(a.cy as int).update(
            a.cy - 1,
            a.rows()[a.cy - 1] + a.rows()[a.cy as int],
        ),
        a.rows()[a.cy - 1].len() as int,
        a.cy - 1,
    )
    &&& a.cx == 0 && a.cy == 0 ==> *b == *a
}

/// The character under the cursor was deleted, or the next line joined to this one.
pub open spec fn deleted_forward(a: &EnvEditor, b: &EnvEditor) -> bool {
    &&& b.wf()
    &&& a.cx < a.rows()[a.cy as int].len() ==> a.moved_to(
        b,
        a.rows().update(a.cy as int, remove_at(a.rows()[a.cy as int], a.cx as int)),
        a.cx as int,
        a.cy as int,
    )
    &&& a.cx == a.rows()[a.cy as int].len() && a.cy + 1 < a.rows().len()
        ==> a.moved_to(
            b,
            a.rows().remove(a.cy + 1).update(
                a.cy as int,
                a.rows()[a.cy as int] + a.rows()[a.cy + 1],
            ),
            a.cx as int,
            a.cy as int,
        )
    &&& a.cx == a.rows()[a.cy as int].len() && a.cy + 1 >= a.rows().len()
        ==> *b == *a
}

/// The cursor moved one character left.
pub open spec fn moved_left(a: &EnvEditor, b: &EnvEditor) -> bool {
    &&& b.wf()
    &&& b.lines@ == a.lines@
    &&& b.project == a.project
    &&& b.env == a.env
    &&& a.cx > 0 ==> b.cx == a.cx - 1 && b.cy == a.cy
    &&& a.cx == 0 && a.cy > 0 ==> b.cy == a.cy - 1
        && b.cx == a.rows()[a.cy - 1].len()
    &&& a.cx == 0 && a.cy == 0 ==> b.cx == 0 && b.cy == 0
}

/// The cursor moved one character right.
pub open spec fn moved_right(a: &EnvEditor, b: &EnvEditor) -> bool {
    &&& b.wf()
    &&& b.lines@ == a.lines@
    &&& b.project == a.project
    &&& b.env == a.env
    &&& a.cx < a.rows()[a.cy as int].len() ==> b.cx == a.cx + 1
        && b.cy == a.cy
    &&& a.cx == a.rows()[a.cy as int].len() && a.cy + 1 < a.rows().len()
        ==> b.cy == a.cy + 1 && b.cx == 0
    &&& a.cx == a.rows()[a.cy as int].len() && a.cy + 1 >= a.rows().len()
        ==> b.cx == a.cx && b.cy == a.cy
}

/// The cursor moved one line up.
pub open spec fn moved_up(a: &EnvEditor, b: &EnvEditor) -> bool {
    &&& b.wf()
    &&& b.lines@ == a.lines@
    &&& b.project == a.project
    &&& b.env == a.env
    &&& a.cy > 0 ==> b.cy == a.cy - 1 && b.cx == (if a.cx
        <= a.rows()[a.cy - 1].len() {
            a.cx as int
        } else {
            a.rows()[a.cy - 1].len() as int
        })
    &&& a.cy == 0 ==> b.cx == a.cx && b.cy == 0
}

/// The cursor moved one line down.
pub open spec fn moved_down(a: &EnvEditor, b: &EnvEditor) -> bool {
    &&& b.wf()
    &&& b.lines@ == a.lines@
    &&& b.project == a.project
    &&& b.env == a.env
    &&& a.cy + 1 < a.rows().len() ==> b.cy == a.cy + 1 && b.cx
        == (if a.cx <= a.rows()[a.cy + 1].len() {
            a.cx as int
        } else {
            a.rows()[a.cy + 1].len() as int
        })
    &&& a.cy + 1 >= a.rows().len() ==> b.cx == a.cx && b.cy
        == a.cy
}


// --- laws of the editor -------------------------------------------------------

/// The text before line `k` of `rows`, with the line break that ends it.
pub open spec fn text_before(rows: Seq<Seq<char>>, k: int) -> Seq<char> {
    if k == 0 {
        Seq::empty()
    } else {
        joined(rows.take(k)) + seq!['\n']
    }
}

/// The text after line `k` of `rows`, with the line break that begins it.
pub open spec fn text_after(rows: Seq<Seq<char>>, k: int) -> Seq<char> {
    if k + 1 >= rows.len() {
        Seq::empty()
    } else {
        seq!['\n'] + joined(rows.skip(k + 1))
    }
}

/// Where the cursor stands in the joined text: the characters before it.
pub open spec fn cursor_offset(e: &EnvEditor) -> int {
    text_before(e.rows(), e.cy as int).len() + e.cx
}

proof fn lemma_joined_append(a: Seq<Seq<char>>, b: Seq<Seq<char>>)
    requires
        a.len() > 0,
        b.len() > 0,
    ensures
        joined(a + b) == joined(a) + seq!['\n'] + joined(b),
    decreases b.len(),
{
    if b.len() == 1 {
        assert((a + b).drop_last() =~= a);
        assert((a + b).last() == b[0]);
    } else {
        lemma_joined_append(a, b.drop_last());
        assert((a + b).drop_last() =~= a + b.drop_last());
        assert((a + b).last() == b.last());
        assert(joined(a + b) =~= joined(a) + seq!['\n'] + joined(b));
    }
}

/// The joined text splits around any line.
proof fn lemma_joined_at(rows: Seq<Seq<char>>, k: int)
    requires
        0 <= k < rows.len(),
    ensures
        joined(rows) == text_before(rows, k) + rows[k] + text_after(rows, k),
{
    let tail = rows.skip(k);
    if k + 1 < rows.len() {
        assert(tail =~= seq![rows[k]] + rows.skip(k + 1));
        lemma_joined_append(seq![rows[k]], rows.skip(k + 1));
    } else {
        assert(tail =~= seq![rows[k]]);
    }
    assert(joined(tail) =~= rows[k] + text_after(rows, k));
    if k > 0 {
        assert(rows =~= rows.take(k) + tail);
        lemma_joined_append(rows.take(k), tail);
        assert(joined(rows) =~= text_before(rows, k) + rows[k] + text_after(rows, k));
    } else {
        assert(tail =~= rows);
        assert(joined(rows) =~= text_before(rows, k) + rows[k] + text_after(rows, k));
    }
}

/// Law: deleting forward keeps the cursor where it is and removes, from the
/// text the lines make when joined with line breaks, the one character at
/// the cursor (a line break at the end of a line); at the very end of the
/// text nothing changes.
pub proof fn law_delete_forward_text(a: EnvEditor, b: EnvEditor)
    requires
        a.wf(),
        deleted_forward(&a, &b),
    ensures
        b.wf(),
        b.cx == a.cx,
        b.cy == a.cy,
        cursor_offset(&a) < joined(a.rows()).len() ==> joined(b.rows()) == remove_at(joined(a.rows()), cursor_offset(&a)),
        cursor_offset(&a) >= joined(a.rows()).len() ==> joined(b.rows()) == joined(a.rows()),
{
    let rows = a.rows();
    let k = a.cy as int;
    let r = rows[k];
    let pre = text_before(rows, k);
    let post = text_after(rows, k);
    let off = cursor_offset(&a);
    lemma_joined_at(rows, k);
    assert(off == pre.len() + a.cx);
    if a.cx < r.len() {
        let nr = rows.update(k, remove_at(r, a.cx as int));
        assert(nr.take(k) =~= rows.take(k));
        assert(nr.skip(k + 1) =~= rows.skip(k + 1));
        assert(text_before(nr, k) == pre);
        assert(text_after(nr, k) == post);
        lemma_joined_at(nr, k);
        assert(remove_at(pre + r + post, off) =~= pre + remove_at(r, a.cx as int) + post);
    } else if k + 1 < rows.len() {
        let s = rows[k + 1];
        let nr = rows.remove(k + 1).update(k, r + s);
        let rest = rows.skip(k + 1);
        lemma_joined_at(rest, 0);
        assert(rest[0] == s);
        assert(rest.skip(1) =~= rows.skip(k + 2));
        assert(nr.take(k) =~= rows.take(k));
        assert(nr.skip(k + 1) =~= rows.skip(k + 2));
        assert(text_before(nr, k) == pre);
        assert(text_before(rest, 0) == Seq::<char>::empty());
        assert(post =~= seq!['\n'] + s + text_after(rest, 0));
        assert(text_after(nr, k) == text_after(rest, 0));
        lemma_joined_at(nr, k);
        assert(remove_at(pre + r + post, off) =~= pre + (r + s) + text_after(rest, 0));
    } else {
        assert(post == Seq::<char>::empty());
    }
}

/// Law: typing a character and then deleting it with backspace gives back
/// the lines and the cursor as they were.
pub proof fn law_insert_then_backspace(a: EnvEditor, c: char, b: EnvEditor, d: EnvEditor)
    requires
        a.wf(),
        char_inserted(&a, &b, c),
        backspaced(&b, &d),
    ensures
        d.rows() == a.rows(),
        d.cx == a.cx,
        d.cy == a.cy,
        d.project == a.project,
        d.env == a.env,
{
    let row = a.rows()[a.cy as int];
    let i = a.cx as int;
    assert(insert_at(row, i, c).take(i) =~= row.take(i));
    assert(insert_at(row, i, c).skip(i + 1) =~= row.skip(i));
    assert(remove_at(insert_at(row, i, c), i) =~= row);
    assert(a.rows().update(a.cy as int, insert_at(row, i, c)).update(a.cy as int, row) =~= a.rows());
}

/// Law: splitting a line and then pressing backspace at the start of the new
/// line joins it back: the lines and the cursor are as they were.
pub proof fn law_newline_then_backspace(a: EnvEditor, b: EnvEditor, d: EnvEditor)
    requires
        a.wf(),
        line_split(&a, &b),
        backspaced(&b, &d),
    ensures
        d.rows() == a.rows(),
        d.cx == a.cx,
        d.cy == a.cy,
        d.project == a.project,
        d.env == a.env,
{
    let r = a.rows();
    let y = a.cy as int;
    let row = r[y];
    let head = row.take(a.cx as int);
    let tail = row.skip(a.cx as int);
    let rb = r.take(y) + seq![head, tail] + r.skip(y + 1);
    assert(rb[y] == head);
    assert(rb[y + 1] == tail);
    assert(head + tail =~= row);
    assert(rb.remove(y + 1).update(y, head + tail) =~= r);
}


// --- the document's header is ignored ----------------------------------------

proof fn lemma_split_no_sep(x: Seq<char>, sep: char)
    requires
        forall|i: int| 0 <= i < x.len() ==> #[trigger] x[i] != sep,
    ensures
        split_on(x, sep) == seq![x],
    decreases x.len(),
{
    if x.len() > 0 {
        let p = x.drop_last();
        assert forall|i: int| 0 <= i < p.len() implies #[trigger] p[i] != sep by {
            assert(p[i] == x[i]);
        }
        lemma_split_no_sep(p, sep);
        assert(x.last() == x[x.len() - 1]);
        assert(p.push(x.last()) =~= x);
    } else {
        assert(x =~= Seq::<char>::empty());
        assert(split_on(x, sep) =~= seq![x]);
    }
}

/// Splitting at a separator splits each side of it.
proof fn lemma_split_concat(a: Seq<char>, b: Seq<char>, sep: char)
    ensures
        split_on(a + seq![sep] + b, sep) == split_on(a, sep) + split_on(b, sep),
    decreases b.len(),
{
    let c = a + seq![sep] + b;
    if b.len() == 0 {
        assert(c =~= a + seq![sep]);
        assert((a + seq![sep]).drop_last() =~= a);
        assert(split_on(b, sep) =~= seq![Seq::<char>::empty()]);
        assert(split_on(a, sep).push(Seq::<char>::empty()) =~= split_on(a, sep) + split_on(b, sep));
    } else {
        let bd = b.drop_last();
        lemma_split_concat(a, bd, sep);
        assert(c.drop_last() =~= a + seq![sep] + bd);
        assert(c.last() == b.last());
        crate::text::lemma_split_on_len(bd, sep);
        crate::text::lemma_split_on_len(a, sep);
        let pa = split_on(a, sep);
        let pb = split_on(bd, sep);
        if b.last() == sep {
            assert((pa + pb).push(Seq::<char>::empty()) =~= pa + pb.push(Seq::<char>::empty()));
        } else {
            let parts = pa + pb;
            assert(parts.last() == pb.last());
            assert(parts.update(parts.len() - 1, parts.last().push(b.last())) =~= pa + pb.update(
                pb.len() - 1,
                pb.last().push(b.last()),
            ));
        }
    }
}

/// A line that starts with `#` is a comment.
proof fn lemma_comment_line(l: Seq<char>)
    requires
        l.len() > 0,
        l[0] == '#',
    ensures
        parse_line(l) is None,
{
    lemma_trim_start_skip(l, 0);
    assert(l.skip(0) =~= l);
    let t = trim_end(l);
    lemma_trim_end_keeps_first(l);
}

proof fn lemma_trim_end_keeps_first(l: Seq<char>)
    requires
        l.len() > 0,
        !is_ws(l[0]),
    ensures
        trim_end(l).len() > 0,
        trim_end(l)[0] == l[0],
    decreases l.len(),
{
    if l.len() > 1 && is_ws(l.last()) {
        assert(l.drop_last()[0] == l[0]);
        lemma_trim_end_keeps_first(l.drop_last());
    }
}

/// Lines that assign nothing in front of others change nothing.
proof fn lemma_parse_after_nothing(x: Seq<Seq<char>>, y: Seq<Seq<char>>)
    requires
        parse_lines(x) == Seq::<(Seq<char>, Seq<char>)>::empty(),
    ensures
        parse_lines(x + y) == parse_lines(y),
    decreases y.len(),
{
    if y.len() == 0 {
        assert(x + y =~= x);
    } else {
        lemma_parse_after_nothing(x, y.drop_last());
        assert((x + y).drop_last() =~= x + y.drop_last());
        assert((x + y).last() == y.last());
    }
}

/// Law: the comment header of the document handed to an external editor is
/// ignored when the document is read back, for project and environment
/// names without a line break; so, for entries that `.env` text carries
/// exactly, the document reads back as the entries it was written from.
pub proof fn law_template_header_ignored(project: Seq<char>, env: Seq<char>, es: crate::entries::SecretsModel)
    requires
        forall|i: int| 0 <= i < project.len() ==> #[trigger] project[i] != '\n',
        forall|i: int| 0 <= i < env.len() ==> #[trigger] env[i] != '\n',
    ensures
        parsed(template_header(project, env) + serialized(es)) == parsed(serialized(es)),
        writable(es) ==> parsed(template_header(project, env) + serialized(es)) == es,
{
    reveal_strlit("# dev-secrets \u{2014} editing ");
    reveal_strlit("/");
    reveal_strlit("\n");
    reveal_strlit("# Edit as a normal .env file: KEY=VALUE per line.\n");
    reveal_strlit("# Lines you remove are deleted; blank lines and # comments are ignored.\n");
    reveal_strlit("# References like ${project.env.KEY} are kept as-is and resolved on export.\n");
    reveal_strlit("# Save and quit to apply, or quit without saving to cancel.\n\n");
    let l1 = "# dev-secrets \u{2014} editing "@ + project + "/"@ + env;
    let c2 = "# Edit as a normal .env file: KEY=VALUE per line.\n"@;
    let c3 = "# Lines you remove are deleted; blank lines and # comments are ignored.\n"@;
    let c4 = "# References like ${project.env.KEY} are kept as-is and resolved on export.\n"@;
    let c5 = "# Save and quit to apply, or quit without saving to cancel.\n\n"@;
    let l2 = c2.drop_last();
    let l3 = c3.drop_last();
    let l4 = c4.drop_last();
    let l5 = c5.drop_last().drop_last();
    let body = serialized(es);
    let e: Seq<char> = Seq::empty();
    let nl = '\n';
    assert(template_header(project, env) + body =~= l1 + seq![nl] + (l2 + seq![nl] + (l3 + seq![nl] + (l4 + seq![nl]
        + (l5 + seq![nl] + (e + seq![nl] + body))))));
    let h1 = "# dev-secrets \u{2014} editing "@;
    assert forall|i: int| 0 <= i < l1.len() implies #[trigger] l1[i] != nl by {
        if i < h1.len() {
            assert(l1[i] == h1[i]);
        } else if i < h1.len() + project.len() {
            assert(l1[i] == project[i - h1.len()]);
        } else if i == h1.len() + project.len() {
        } else {
            assert(l1[i] == env[i - h1.len() - project.len() - 1]);
        }
    }
    lemma_split_no_sep(l1, nl);
    lemma_split_no_sep(l2, nl);
    lemma_split_no_sep(l3, nl);
    lemma_split_no_sep(l4, nl);
    lemma_split_no_sep(l5, nl);
    lemma_split_no_sep(e, nl);
    lemma_split_concat(e, body, nl);
    lemma_split_concat(l5, e + seq![nl] + body, nl);
    lemma_split_concat(l4, l5 + seq![nl] + (e + seq![nl] + body), nl);
    lemma_split_concat(l3, l4 + seq![nl] + (l5 + seq![nl] + (e + seq![nl] + body)), nl);
    lemma_split_concat(l2, l3 + seq![nl] + (l4 + seq![nl] + (l5 + seq![nl] + (e + seq![nl] + body))), nl);
    lemma_split_concat(
        l1,
        l2 + seq![nl] + (l3 + seq![nl] + (l4 + seq![nl] + (l5 + seq![nl] + (e + seq![nl] + body)))),
        nl,
    );
    let head = seq![l1, l2, l3, l4, l5, e];
    assert(split_on(template_header(project, env) + body, nl) =~= head + split_on(body, nl));
    assert(l1[0] == '#');
    lemma_comment_line(l1);
    lemma_comment_line(l2);
    lemma_comment_line(l3);
    lemma_comment_line(l4);
    lemma_comment_line(l5);
    assert(trim_start(e) == e);
    assert(trim_end(e) == e);
    assert(parse_line(e) is None);
    assert(head.take(0) =~= Seq::<Seq<char>>::empty());
    assert(head.take(1).drop_last() =~= head.take(0));
    assert(head.take(2).drop_last() =~= head.take(1));
    assert(head.take(3).drop_last() =~= head.take(2));
    assert(head.take(4).drop_last() =~= head.take(3));
    assert(head.take(5).drop_last() =~= head.take(4));
    assert(head.take(6).drop_last() =~= head.take(5));
    assert(parse_lines(head.take(0)) =~= Seq::<(Seq<char>, Seq<char>)>::empty());
    assert(head.take(1).last() == l1);
    assert(head.take(2).last() == l2);
    assert(head.take(3).last() == l3);
    assert(head.take(4).last() == l4);
    assert(head.take(5).last() == l5);
    assert(head.take(6).last() == e);
    assert(parse_lines(head.take(1)) =~= Seq::<(Seq<char>, Seq<char>)>::empty());
    assert(parse_lines(head.take(2)) =~= Seq::<(Seq<char>, Seq<char>)>::empty());
    assert(parse_lines(head.take(3)) =~= Seq::<(Seq<char>, Seq<char>)>::empty());
    assert(parse_lines(head.take(4)) =~= Seq::<(Seq<char>, Seq<char>)>::empty());
    assert(parse_lines(head.take(5)) =~= Seq::<(Seq<char>, Seq<char>)>::empty());
    assert(head.take(6) =~= head);
    assert(parse_lines(head) =~= Seq::<(Seq<char>, Seq<char>)>::empty());
    lemma_parse_after_nothing(head, split_on(body, nl));
    if writable(es) {
        law_serialize_then_parse(es);
    }
}

} // verus!
