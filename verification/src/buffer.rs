//! The line buffer: an ordered, never-empty sequence of lines for one file
//! (or none), with a modified flag and a bound path. Lines are vectors of
//! characters and never contain a line feed.

use vstd::prelude::*;

use crate::text::{
    base_name, join_lines, lemma_base_name_suffix, lemma_parse_content_wf,
    lemma_save_load_round_trip, line_ok, lines_of, join_chars, parse_chars, parse_content,
    str_to_chars,
};

verus! {

/// Why an editing operation was refused.
#[derive(Clone, Copy, Debug, PartialEq, Eq, Structural)]
pub enum EditError {
    /// The row does not name a line of the buffer.
    InvalidLine,
    /// The column is outside the addressed line.
    InvalidColumn,
    /// The character is a line feed, which no stored line may hold.
    InvalidChar,
    /// An editor needs at least one buffer.
    NoBuffers,
}

/// The mathematical content of a buffer.
#[verifier::ext_equal]
pub struct BufferView {
    /// The bound path, absent for a scratch buffer.
    pub file: Option<Seq<char>>,
    /// The lines; never empty.
    pub lines: Seq<Seq<char>>,
    /// Whether the buffer changed since the last successful save.
    pub modified: bool,
}

impl BufferView {
    /// A buffer always holds at least one line, and no line holds a line feed.
    pub open spec fn wf(self) -> bool {
        &&& self.lines.len() >= 1
        &&& forall|i: int| 0 <= i < self.lines.len() ==> line_ok(#[trigger] self.lines[i])
    }
}

/// An in-memory editable file: its lines, its path, and a modified flag.
pub struct Buffer {
    /// The bound path, absent for a scratch buffer.
    pub file: Option<Vec<char>>,
    /// The lines of text.
    pub lines: Vec<Vec<char>>,
    /// Whether the buffer changed since the last successful save.
    pub is_modified: bool,
}

impl View for Buffer {
    type V = BufferView;

    open spec fn view(&self) -> BufferView {
        BufferView {
            file: (match self.file {
                Option::Some(p) => Option::Some(p@),
                Option::None => Option::None,
            }),
            lines: lines_of(self.lines@),
            modified: self.is_modified,
        }
    }
}

impl Buffer {
    /// A new buffer over `contents`, split into lines; empty contents become
    /// one empty line.
    pub fn new(file: Option<&str>, contents: &str) -> (b: Buffer)
        ensures
            b@.lines == parse_content(contents@),
            b@.modified == false,
            b@.file == (match file {
                Option::Some(f) => Option::<Seq<char>>::Some(f@),
                Option::None => Option::<Seq<char>>::None,
            }),
            b@.wf(),
    {
        let cv = str_to_chars(contents);
        let lines = parse_chars(&cv);
        let f = match file {
            Option::Some(s) => Option::Some(str_to_chars(s)),
            Option::None => Option::None,
        };
        proof {
            lemma_parse_content_wf(contents@);
        }
        Buffer { file: f, lines, is_modified: false }
    }

    /// How many lines the buffer holds.
    pub fn len(&self) -> (n: usize)
        ensures
            n == self@.lines.len(),
    {
        self.lines.len()
    }

    /// The line at `idx`, or an index error when there is none.
    pub fn get_line(&self, idx: usize) -> (r: Result<&Vec<char>, EditError>)
        ensures
            r is Ok <==> idx < self@.lines.len(),
            r matches Ok(l) ==> l@ == self@.lines[idx as int],
            r matches Err(e) ==> e == EditError::InvalidLine,
    {
        if idx < self.lines.len() {
            Ok(&self.lines[idx])
        } else {
            Err(EditError::InvalidLine)
        }
    }

    /// Inserts `c` at column `cx` of line `cy` and marks the buffer
    /// modified. Refused when the row or the column is out of range, or when
    /// `c` is a line feed; a refused call leaves the buffer unchanged.
    pub fn insert_char(&mut self, cx: usize, cy: usize, c: char) -> (r: Result<(), EditError>)
        ensures
            r is Ok <==> (cy < old(self)@.lines.len() && cx <= old(self)@.lines[cy as int].len()
                && c != '\n'),
            r is Ok ==> final(self)@ == (BufferView {
                lines: old(self)@.lines.update(
                    cy as int,
                    old(self)@.lines[cy as int].insert(cx as int, c),
                ),
                modified: true,
                ..old(self)@
            }),
            r is Ok ==> old(self)@.lines[cy as int].len() < usize::MAX,
            r matches Err(e) ==> final(self)@ == old(self)@ && e == (if cy
                >= old(self)@.lines.len() {
                EditError::InvalidLine
            } else if cx > old(self)@.lines[cy as int].len() {
                EditError::InvalidColumn
            } else {
                EditError::InvalidChar
            }),
    {
        if cy >= self.lines.len() {
            return Err(EditError::InvalidLine);
        }
        if cx > self.lines[cy].len() {
            return Err(EditError::InvalidColumn);
        }
        if c == '\n' {
            return Err(EditError::InvalidChar);
        }
        let mut line = self.lines.remove(cy);
        line.insert(cx, c);
        proof {
            assert(line@.len() <= usize::MAX) by {
                assert(line.len() == line@.len());
            }
        }
        self.lines.insert(cy, line);
        self.is_modified = true;
        proof {
            assert(self.lines@ =~= old(self).lines@.update(cy as int, line));
            assert(lines_of(self.lines@) =~= lines_of(old(self).lines@).update(
                cy as int,
                old(self)@.lines[cy as int].insert(cx as int, c),
            ));
            assert(final(self)@ =~= (BufferView {
                lines: old(self)@.lines.update(
                    cy as int,
                    old(self)@.lines[cy as int].insert(cx as int, c),
                ),
                modified: true,
                ..old(self)@
            }));
        }
        Ok(())
    }

    /// Removes the character at column `cx` of line `cy` and marks the
    /// buffer modified. Refused when the row or the column is out of range.
    pub fn remove_char(&mut self, cx: usize, cy: usize) -> (r: Result<(), EditError>)
        ensures
            r is Ok <==> (cy < old(self)@.lines.len() && cx < old(self)@.lines[cy as int].len()),
            r is Ok ==> final(self)@ == (BufferView {
                lines: old(self)@.lines.update(
                    cy as int,
                    old(self)@.lines[cy as int].remove(cx as int),
                ),
                modified: true,
                ..old(self)@
            }),
            r matches Err(e) ==> final(self)@ == old(self)@ && e == (if cy
                >= old(self)@.lines.len() {
                EditError::InvalidLine
            } else {
                EditError::InvalidColumn
            }),
    {
        if cy >= self.lines.len() {
            return Err(EditError::InvalidLine);
        }
        if cx >= self.lines[cy].len() {
            return Err(EditError::InvalidColumn);
        }
        let mut line = self.lines.remove(cy);
        line.remove(cx);
        self.lines.insert(cy, line);
        self.is_modified = true;
        proof {
            assert(self.lines@ =~= old(self).lines@.update(cy as int, line));
            assert(lines_of(self.lines@) =~= lines_of(old(self).lines@).update(
                cy as int,
                old(self)@.lines[cy as int].remove(cx as int),
            ));
            assert(final(self)@ =~= (BufferView {
                lines: old(self)@.lines.update(
                    cy as int,
                    old(self)@.lines[cy as int].remove(cx as int),
                ),
                modified: true,
                ..old(self)@
            }));
        }
        Ok(())
    }

    /// Removes line `cy` and returns its text. The only line of a buffer is
    /// cleared in place instead, so the buffer never drops below one line.
    pub fn remove_line(&mut self, cy: usize) -> (r: Result<Vec<char>, EditError>)
        ensures
            r is Ok <==> cy < old(self)@.lines.len(),
            r matches Ok(l) ==> l@ == old(self)@.lines[cy as int] && final(self)@ == (BufferView {
                lines: (if old(self)@.lines.len() == 1 {
                    seq![Seq::<char>::empty()]
                } else {
                    old(self)@.lines.remove(cy as int)
                }),
                modified: true,
                ..old(self)@
            }),
            r is Ok ==> final(self)@.lines.len() >= 1,
            r matches Err(e) ==> final(self)@ == old(self)@ && e == EditError::InvalidLine,
    {
        if cy >= self.lines.len() {
            return Err(EditError::InvalidLine);
        }
        self.is_modified = true;
        if self.lines.len() == 1 {
            let l = self.lines.remove(0);
            let empty: Vec<char> = Vec::new();
            self.lines.push(empty);
            proof {
                assert(lines_of(self.lines@) =~= seq![Seq::<char>::empty()]);
                assert(final(self)@ =~= (BufferView {
                    lines: seq![Seq::<char>::empty()],
                    modified: true,
                    ..old(self)@
                }));
            }
            Ok(l)
        } else {
            let l = self.lines.remove(cy);
            proof {
                assert(lines_of(self.lines@) =~= lines_of(old(self).lines@).remove(cy as int));
                assert(final(self)@ =~= (BufferView {
                    lines: old(self)@.lines.remove(cy as int),
                    modified: true,
                    ..old(self)@
                }));
            }
            Ok(l)
        }
    }

    /// Inserts an empty line before line `cy` and marks the buffer modified.
    pub fn insert_new_line(&mut self, cy: usize, _cx: usize)
        requires
            cy <= old(self)@.lines.len(),
        ensures
            final(self)@ == (BufferView {
                lines: old(self)@.lines.insert(cy as int, Seq::<char>::empty()),
                modified: true,
                ..old(self)@
            }),
    {
        let empty: Vec<char> = Vec::new();
        self.lines.insert(cy, empty);
        self.is_modified = true;
        proof {
            assert(lines_of(self.lines@) =~= lines_of(old(self).lines@).insert(
                cy as int,
                Seq::<char>::empty(),
            ));
            assert(final(self)@ =~= (BufferView {
                lines: old(self)@.lines.insert(cy as int, Seq::<char>::empty()),
                modified: true,
                ..old(self)@
            }));
        }
    }

    /// Splits line `cy` at column `cx`: the line keeps the text before the
    /// column and a new line with the rest follows it.
    pub fn split_line(&mut self, cy: usize, cx: usize)
        requires
            cy < old(self)@.lines.len(),
            cx <= old(self)@.lines[cy as int].len(),
        ensures
            final(self)@ == (BufferView {
                lines: old(self)@.lines.update(
                    cy as int,
                    old(self)@.lines[cy as int].take(cx as int),
                ).insert(cy + 1, old(self)@.lines[cy as int].skip(cx as int)),
                modified: true,
                ..old(self)@
            }),
    {
        let mut line = self.lines.remove(cy);
        let tail = line.split_off(cx);
        self.lines.insert(cy, tail);
        self.lines.insert(cy, line);
        self.is_modified = true;
        proof {
            assert(line@ =~= old(self)@.lines[cy as int].take(cx as int));
            assert(tail@ =~= old(self)@.lines[cy as int].skip(cx as int));
            assert(self.lines@ =~= old(self).lines@.update(cy as int, line).insert(
                cy + 1,
                tail,
            ));
            assert(lines_of(self.lines@) =~= lines_of(old(self).lines@).update(
                cy as int,
                old(self)@.lines[cy as int].take(cx as int),
            ).insert(cy + 1, old(self)@.lines[cy as int].skip(cx as int)));
            assert(final(self)@ =~= (BufferView {
                lines: old(self)@.lines.update(
                    cy as int,
                    old(self)@.lines[cy as int].take(cx as int),
                ).insert(cy + 1, old(self)@.lines[cy as int].skip(cx as int)),
                modified: true,
                ..old(self)@
            }));
        }
    }

    /// Appends line `cy` to the line above it and removes it: the
    /// backspace-at-column-zero merge.
    pub fn merge_line(&mut self, cy: usize)
        requires
            1 <= cy < old(self)@.lines.len(),
        ensures
            final(self)@ == (BufferView {
                lines: old(self)@.lines.update(
                    cy - 1,
                    old(self)@.lines[cy - 1] + old(self)@.lines[cy as int],
                ).remove(cy as int),
                modified: true,
                ..old(self)@
            }),
            final(self)@.lines.len() >= 1,
            old(self)@.lines[cy - 1].len() <= final(self)@.lines[cy - 1].len(),
    {
        let mut tail = self.lines.remove(cy);
        let mut prev = self.lines.remove(cy - 1);
        prev.append(&mut tail);
        self.lines.insert(cy - 1, prev);
        self.is_modified = true;
        proof {
            assert(prev@ =~= old(self)@.lines[cy - 1] + old(self)@.lines[cy as int]);
            assert(self.lines@ =~= old(self).lines@.update(cy - 1, prev).remove(cy as int));
            assert(lines_of(self.lines@) =~= lines_of(old(self).lines@).update(
                cy - 1,
                old(self)@.lines[cy - 1] + old(self)@.lines[cy as int],
            ).remove(cy as int));
            assert(final(self)@ =~= (BufferView {
                lines: old(self)@.lines.update(
                    cy - 1,
                    old(self)@.lines[cy - 1] + old(self)@.lines[cy as int],
                ).remove(cy as int),
                modified: true,
                ..old(self)@
            }));
        }
    }

    /// The whole buffer as one text, lines joined with line feeds: what a
    /// save writes.
    pub fn contents(&self) -> (r: Vec<char>)
        ensures
            r@ == join_lines(self@.lines),
    {
        join_chars(&self.lines)
    }

    /// Clears the modified flag, after a successful save.
    pub fn mark_saved(&mut self)
        ensures
            final(self)@ == (BufferView { modified: false, ..old(self)@ }),
    {
        self.is_modified = false;
        proof {
            assert(final(self)@ =~= (BufferView { modified: false, ..old(self)@ }));
        }
    }

    /// Rebinds the buffer to `path`, after a successful save-as.
    pub fn set_file(&mut self, path: Vec<char>)
        ensures
            final(self)@ == (BufferView { file: Option::Some(path@), ..old(self)@ }),
    {
        self.file = Some(path);
        proof {
            assert(final(self)@ =~= (BufferView { file: Option::Some(path@), ..old(self)@ }));
        }
    }

    /// The short name of the bound path: what follows its last `'/'`. Absent
    /// for a scratch buffer or when nothing follows the slash.
    pub fn file_name(&self) -> (r: Option<Vec<char>>)
        ensures
            (match self@.file {
                Option::Some(p) => if base_name(p).len() == 0 {
                    r is None
                } else {
                    r matches Some(n) && n@ == base_name(p)
                },
                Option::None => r is None,
            }),
    {
        match &self.file {
            Option::None => None,
            Option::Some(p) => {
                let mut cut: usize = 0;
                let mut i: usize = 0;
                while i < p.len()
                    invariant
                        cut <= i <= p@.len(),
                        cut == 0 || p@[cut - 1] == '/',
                        forall|k: int| cut <= k < i ==> p@[k] != '/',
                    decreases p@.len() - i,
                {
                    if p[i] == '/' {
                        cut = i + 1;
                    }
                    i = i + 1;
                }
                let mut out: Vec<char> = Vec::new();
                let mut j: usize = cut;
                while j < p.len()
                    invariant
                        cut <= j <= p@.len(),
                        out@ == p@.subrange(cut as int, j as int),
                    decreases p@.len() - j,
                {
                    out.push(p[j]);
                    j = j + 1;
                    proof {
                        assert(out@ =~= p@.subrange(cut as int, j as int));
                    }
                }
                proof {
                    lemma_base_name_suffix(p@, cut as int);
                    assert(out@ =~= p@.skip(cut as int));
                }
                if out.len() == 0 {
                    None
                } else {
                    Some(out)
                }
            },
        }
    }
}

/// Saving a buffer and loading the written text back yields the same lines:
/// what `contents` writes, `new` reads back unchanged. A line before the
/// last must not end in a carriage return, and the last of several lines
/// must be non-empty; a buffer that was loaded or edited normally satisfies
/// both.
pub proof fn lemma_buffer_round_trip(b: BufferView)
    requires
        b.wf(),
        forall|i: int|
            0 <= i < b.lines.len() - 1 ==> (#[trigger] b.lines[i]).len() == 0 || b.lines[i].last()
                != '\r',
        b.lines.len() > 1 ==> b.lines.last().len() > 0,
    ensures
        parse_content(join_lines(b.lines)) == b.lines,
{
    lemma_save_load_round_trip(b.lines);
}

} // verus!
