//! Text as sequences of characters: splitting content into lines, joining
//! lines back into content, whitespace tokenization, and the base name of a
//! path. All operations are specified over `Seq<char>`.

use vstd::prelude::*;
use vstd::string::StrSliceExecFns;

verus! {

/// A stored line never contains a line feed; line feeds exist only as
/// separators between lines.
pub open spec fn line_ok(l: Seq<char>) -> bool {
    forall|i: int| 0 <= i < l.len() ==> l[i] != '\n'
}

/// The view of a vector of lines.
pub open spec fn lines_of(v: Seq<Vec<char>>) -> Seq<Seq<char>> {
    Seq::new(v.len(), |i: int| v[i]@)
}

/// Drops a single trailing carriage return, as a `"\r\n"` separator leaves
/// one on the piece before it.
pub open spec fn strip_cr(l: Seq<char>) -> Seq<char> {
    if l.len() > 0 && l.last() == '\r' {
        l.drop_last()
    } else {
        l
    }
}

/// Splitting `s` into lines, with `cur` the piece read so far and `acc` the
/// lines already produced. A final unterminated piece is kept only when it is
/// non-empty, so a single trailing separator adds no line.
pub open spec fn split_rec(s: Seq<char>, cur: Seq<char>, acc: Seq<Seq<char>>) -> Seq<Seq<char>>
    decreases s.len(),
{
    if s.len() == 0 {
        if cur.len() == 0 {
            acc
        } else {
            acc.push(cur)
        }
    } else if s[0] == '\n' {
        split_rec(s.drop_first(), Seq::empty(), acc.push(strip_cr(cur)))
    } else {
        split_rec(s.drop_first(), cur.push(s[0]), acc)
    }
}

/// The lines of `s`, separated by `"\n"` or `"\r\n"`, the final separator
/// optional.
pub open spec fn split_lines(s: Seq<char>) -> Seq<Seq<char>> {
    split_rec(s, Seq::empty(), Seq::empty())
}

/// What a buffer holds after reading `s`: empty content is one empty line,
/// so a buffer is never without a line.
pub open spec fn parse_content(s: Seq<char>) -> Seq<Seq<char>> {
    if s.len() == 0 {
        seq![Seq::<char>::empty()]
    } else {
        split_lines(s)
    }
}

/// The lines joined with a single line feed between them.
pub open spec fn join_lines(ls: Seq<Seq<char>>) -> Seq<char>
    decreases ls.len(),
{
    if ls.len() == 0 {
        Seq::empty()
    } else if ls.len() == 1 {
        ls[0]
    } else {
        ls[0] + seq!['\n'] + join_lines(ls.drop_first())
    }
}

/// The whitespace that separates command tokens.
pub open spec fn is_ws(c: char) -> bool {
    c == ' ' || c == '\t' || c == '\n' || c == '\r'
}

/// Whitespace tokenization: like line splitting, but empty pieces are never
/// kept, so runs of whitespace count as one separator.
pub open spec fn ws_rec(s: Seq<char>, cur: Seq<char>, acc: Seq<Seq<char>>) -> Seq<Seq<char>>
    decreases s.len(),
{
    if s.len() == 0 {
        if cur.len() == 0 {
            acc
        } else {
            acc.push(cur)
        }
    } else if is_ws(s[0]) {
        ws_rec(s.drop_first(), Seq::empty(), if cur.len() == 0 {
            acc
        } else {
            acc.push(cur)
        })
    } else {
        ws_rec(s.drop_first(), cur.push(s[0]), acc)
    }
}

/// The whitespace-separated tokens of `s`.
pub open spec fn split_ws(s: Seq<char>) -> Seq<Seq<char>> {
    ws_rec(s, Seq::empty(), Seq::empty())
}

/// The part of a path after its last `'/'`; empty when the path ends in one.
pub open spec fn base_name(p: Seq<char>) -> Seq<char>
    decreases p.len(),
{
    if p.len() == 0 {
        p
    } else if p.last() == '/' {
        Seq::empty()
    } else {
        base_name(p.drop_last()).push(p.last())
    }
}

/// The base name is the suffix that follows the last `'/'`: `cut` points
/// just past that slash (or to the start when there is none).
pub proof fn lemma_base_name_suffix(p: Seq<char>, cut: int)
    requires
        0 <= cut <= p.len(),
        cut == 0 || p[cut - 1] == '/',
        forall|k: int| cut <= k < p.len() ==> p[k] != '/',
    ensures
        base_name(p) == p.skip(cut),
    decreases p.len(),
{
    if cut == p.len() {
        if p.len() == 0 {
            assert(p.skip(0) =~= p);
        } else {
            assert(p.last() == '/');
            assert(p.skip(cut) =~= Seq::<char>::empty());
        }
    } else {
        assert(p.last() != '/');
        assert(forall|k: int| cut <= k < p.drop_last().len() ==> p.drop_last()[k] != '/');
        lemma_base_name_suffix(p.drop_last(), cut);
        assert(p.drop_last().skip(cut).push(p.last()) =~= p.skip(cut));
    }
}

/// The characters of a string slice as a vector.
pub fn str_to_chars(s: &str) -> (v: Vec<char>)
    ensures
        v@ == s@,
{
    let n: usize = s.unicode_len();
    let mut v: Vec<char> = Vec::new();
    let mut i: usize = 0;
    while i < n
        invariant
            i <= n,
            n == s@.len(),
            v@ == s@.take(i as int),
        decreases n - i,
    {
        let c = s.get_char(i);
        v.push(c);
        i = i + 1;
        proof {
            assert(v@ =~= s@.take(i as int));
        }
    }
    proof {
        assert(s@.take(n as int) =~= s@);
    }
    v
}

/// Whether two character vectors hold the same characters.
pub fn chars_eq(a: &Vec<char>, b: &Vec<char>) -> (r: bool)
    ensures
        r <==> a@ == b@,
{
    if a.len() != b.len() {
        return false;
    }
    let mut i: usize = 0;
    while i < a.len()
        invariant
            i <= a@.len(),
            a@.len() == b@.len(),
            forall|j: int| 0 <= j < i ==> a@[j] == b@[j],
        decreases a@.len() - i,
    {
        if a[i] != b[i] {
            return false;
        }
        i = i + 1;
    }
    proof {
        assert(a@ =~= b@);
    }
    true
}

/// A copy of a character vector.
pub fn clone_chars(v: &Vec<char>) -> (r: Vec<char>)
    ensures
        r@ == v@,
{
    let mut r: Vec<char> = Vec::new();
    let mut i: usize = 0;
    while i < v.len()
        invariant
            i <= v@.len(),
            r@ == v@.take(i as int),
        decreases v@.len() - i,
    {
        r.push(v[i]);
        i = i + 1;
        proof {
            assert(r@ =~= v@.take(i as int));
        }
    }
    proof {
        assert(v@.take(v@.len() as int) =~= v@);
    }
    r
}

/// Whether a character vector equals a string literal.
pub fn chars_eq_str(a: &Vec<char>, s: &str) -> (r: bool)
    ensures
        r <==> a@ == s@,
{
    let sv = str_to_chars(s);
    chars_eq(a, &sv)
}

/// Splits content into lines.
pub fn split_chars(s: &Vec<char>) -> (r: Vec<Vec<char>>)
    ensures
        lines_of(r@) == split_lines(s@),
{
    let mut acc: Vec<Vec<char>> = Vec::new();
    let mut cur: Vec<char> = Vec::new();
    let mut i: usize = 0;
    proof {
        assert(s@.skip(0) =~= s@);
        assert(lines_of(acc@) =~= Seq::<Seq<char>>::empty());
    }
    while i < s.len()
        invariant
            i <= s@.len(),
            split_rec(s@.skip(i as int), cur@, lines_of(acc@)) == split_lines(s@),
        decreases s@.len() - i,
    {
        proof {
            assert(s@.skip(i as int)[0] == s@[i as int]);
            assert(s@.skip(i as int).drop_first() =~= s@.skip(i + 1));
        }
        let c = s[i];
        if c == '\n' {
            let ghost cur0 = cur@;
            let mut done = cur;
            if done.len() > 0 && done[done.len() - 1] == '\r' {
                done.pop();
            }
            proof {
                assert(done@ =~= strip_cr(cur0));
                assert(lines_of(acc@.push(done)) =~= lines_of(acc@).push(done@));
            }
            acc.push(done);
            cur = Vec::new();
        } else {
            cur.push(c);
        }
        i = i + 1;
    }
    proof {
        assert(s@.skip(s@.len() as int) =~= Seq::<char>::empty());
    }
    if cur.len() > 0 {
        proof {
            assert(lines_of(acc@.push(cur)) =~= lines_of(acc@).push(cur@));
        }
        acc.push(cur);
    }
    acc
}

/// The lines a buffer holds after reading `s`: `parse_content`, executably.
pub fn parse_chars(s: &Vec<char>) -> (r: Vec<Vec<char>>)
    ensures
        lines_of(r@) == parse_content(s@),
{
    if s.len() == 0 {
        let mut r: Vec<Vec<char>> = Vec::new();
        let empty: Vec<char> = Vec::new();
        r.push(empty);
        proof {
            assert(lines_of(r@) =~= seq![Seq::<char>::empty()]);
        }
        r
    } else {
        split_chars(s)
    }
}

/// Joins lines with a single line feed between them.
pub fn join_chars(ls: &Vec<Vec<char>>) -> (r: Vec<char>)
    ensures
        r@ == join_lines(lines_of(ls@)),
{
    let mut r: Vec<char> = Vec::new();
    let mut i: usize = 0;
    while i < ls.len()
        invariant
            i <= ls@.len(),
            r@ == join_lines(lines_of(ls@).take(i as int)),
        decreases ls@.len() - i,
    {
        if i > 0 {
            r.push('\n');
        }
        let ghost r0 = r@;
        let line = &ls[i];
        let mut j: usize = 0;
        while j < line.len()
            invariant
                j <= line@.len(),
                r@ == r0 + line@.take(j as int),
            decreases line@.len() - j,
        {
            r.push(line[j]);
            j = j + 1;
            proof {
                assert(r@ =~= r0 + line@.take(j as int));
            }
        }
        proof {
            assert(line@.take(line@.len() as int) =~= line@);
            let pre = lines_of(ls@).take(i as int);
            let post = lines_of(ls@).take(i + 1);
            assert(pre.push(ls@[i as int]@) =~= post);
            if i > 0 {
                lemma_join_snoc(pre, ls@[i as int]@);
                assert(r@ =~= join_lines(pre) + seq!['\n'] + ls@[i as int]@);
            } else {
                assert(post.len() == 1);
                assert(r@ =~= ls@[0]@);
            }
        }
        i = i + 1;
    }
    proof {
        assert(lines_of(ls@).take(ls@.len() as int) =~= lines_of(ls@));
    }
    r
}

/// Splits into whitespace-separated tokens.
pub fn split_ws_chars(s: &Vec<char>) -> (r: Vec<Vec<char>>)
    ensures
        lines_of(r@) == split_ws(s@),
{
    let mut acc: Vec<Vec<char>> = Vec::new();
    let mut cur: Vec<char> = Vec::new();
    let mut i: usize = 0;
    proof {
        assert(s@.skip(0) =~= s@);
        assert(lines_of(acc@) =~= Seq::<Seq<char>>::empty());
    }
    while i < s.len()
        invariant
            i <= s@.len(),
            ws_rec(s@.skip(i as int), cur@, lines_of(acc@)) == split_ws(s@),
        decreases s@.len() - i,
    {
        proof {
            assert(s@.skip(i as int)[0] == s@[i as int]);
            assert(s@.skip(i as int).drop_first() =~= s@.skip(i + 1));
        }
        let c = s[i];
        if c == ' ' || c == '\t' || c == '\n' || c == '\r' {
            if cur.len() > 0 {
                proof {
                    assert(lines_of(acc@.push(cur)) =~= lines_of(acc@).push(cur@));
                }
                acc.push(cur);
                cur = Vec::new();
            } else {
                proof {
                    assert(cur@ =~= Seq::<char>::empty());
                }
            }
        } else {
            cur.push(c);
        }
        i = i + 1;
    }
    proof {
        assert(s@.skip(s@.len() as int) =~= Seq::<char>::empty());
    }
    if cur.len() > 0 {
        proof {
            assert(lines_of(acc@.push(cur)) =~= lines_of(acc@).push(cur@));
        }
        acc.push(cur);
    }
    acc
}

/// Appending one line to a non-empty sequence joins it after a separator.
pub proof fn lemma_join_snoc(ls: Seq<Seq<char>>, x: Seq<char>)
    requires
        ls.len() >= 1,
    ensures
        join_lines(ls.push(x)) == join_lines(ls) + seq!['\n'] + x,
    decreases ls.len(),
{
    if ls.len() == 1 {
        assert(ls.push(x).drop_first() =~= seq![x]);
        assert(ls.push(x)[0] == ls[0]);
        assert(join_lines(seq![x]) == seq![x][0]);
    } else {
        assert(ls.push(x).drop_first() =~= ls.drop_first().push(x));
        lemma_join_snoc(ls.drop_first(), x);
        assert(ls.push(x)[0] == ls[0]);
        assert(ls[0] + seq!['\n'] + (join_lines(ls.drop_first()) + seq!['\n'] + x) =~= (ls[0]
            + seq!['\n'] + join_lines(ls.drop_first())) + seq!['\n'] + x);
    }
}

/// A line-feed-free prefix is absorbed into the piece under construction.
proof fn lemma_split_clean_prefix(l: Seq<char>, t: Seq<char>, cur: Seq<char>, acc: Seq<Seq<char>>)
    requires
        line_ok(l),
    ensures
        split_rec(l + t, cur, acc) == split_rec(t, cur + l, acc),
    decreases l.len(),
{
    if l.len() == 0 {
        assert(l + t =~= t);
        assert(cur + l =~= cur);
    } else {
        assert((l + t)[0] == l[0]);
        assert((l + t).len() > 0);
        assert((l + t).drop_first() =~= l.drop_first() + t);
        assert(line_ok(l.drop_first())) by {
            assert forall|i: int| 0 <= i < l.drop_first().len() implies l.drop_first()[i]
                != '\n' by {
                assert(l.drop_first()[i] == l[i + 1]);
            }
        }
        lemma_split_clean_prefix(l.drop_first(), t, cur.push(l[0]), acc);
        assert(cur.push(l[0]) + l.drop_first() =~= cur + l);
    }
}

/// A leading line feed finishes the piece under construction.
proof fn lemma_split_nl(t: Seq<char>, cur: Seq<char>, acc: Seq<Seq<char>>)
    ensures
        split_rec(seq!['\n'] + t, cur, acc) == split_rec(t, Seq::empty(), acc.push(strip_cr(cur))),
{
    assert((seq!['\n'] + t)[0] == '\n');
    assert((seq!['\n'] + t).len() > 0);
    assert((seq!['\n'] + t).drop_first() =~= t);
}

/// Lines already produced pass unchanged through the rest of the split.
proof fn lemma_split_acc(s: Seq<char>, cur: Seq<char>, acc: Seq<Seq<char>>)
    ensures
        split_rec(s, cur, acc) == acc + split_rec(s, cur, Seq::empty()),
    decreases s.len(),
{
    if s.len() == 0 {
        if cur.len() == 0 {
            assert(acc + Seq::<Seq<char>>::empty() =~= acc);
        } else {
            assert(acc + Seq::<Seq<char>>::empty().push(cur) =~= acc.push(cur));
        }
    } else if s[0] == '\n' {
        let x = strip_cr(cur);
        let rest = s.drop_first();
        lemma_split_acc(rest, Seq::empty(), acc.push(x));
        lemma_split_acc(rest, Seq::empty(), Seq::<Seq<char>>::empty().push(x));
        assert(acc + (Seq::<Seq<char>>::empty().push(x) + split_rec(rest, Seq::empty(), Seq::empty()))
            =~= acc.push(x) + split_rec(rest, Seq::empty(), Seq::empty()));
    } else {
        lemma_split_acc(s.drop_first(), cur.push(s[0]), acc);
    }
}

/// Every line a split produces is free of line feeds.
pub proof fn lemma_split_rec_ok(s: Seq<char>, cur: Seq<char>, acc: Seq<Seq<char>>)
    requires
        line_ok(cur),
        forall|i: int| 0 <= i < acc.len() ==> line_ok(#[trigger] acc[i]),
    ensures
        forall|i: int|
            0 <= i < split_rec(s, cur, acc).len() ==> line_ok(#[trigger] split_rec(s, cur, acc)[i]),
    decreases s.len(),
{
    if s.len() == 0 {
        if cur.len() > 0 {
            assert(split_rec(s, cur, acc) == acc.push(cur));
            assert forall|i: int| 0 <= i < acc.push(cur).len() implies line_ok(
                #[trigger] acc.push(cur)[i],
            ) by {
                if i < acc.len() {
                    assert(acc.push(cur)[i] == acc[i]);
                } else {
                    assert(acc.push(cur)[i] == cur);
                }
            }
        } else {
            assert(split_rec(s, cur, acc) == acc);
        }
    } else if s[0] == '\n' {
        let x = strip_cr(cur);
        assert(line_ok(x)) by {
            if cur.len() > 0 && cur.last() == '\r' {
                assert forall|i: int| 0 <= i < cur.drop_last().len() implies cur.drop_last()[i]
                    != '\n' by {
                    assert(cur.drop_last()[i] == cur[i]);
                }
            }
        }
        assert forall|i: int| 0 <= i < acc.push(x).len() implies line_ok(
            #[trigger] acc.push(x)[i],
        ) by {
            if i < acc.len() {
                assert(acc.push(x)[i] == acc[i]);
            } else {
                assert(acc.push(x)[i] == x);
            }
        }
        lemma_split_rec_ok(s.drop_first(), Seq::empty(), acc.push(x));
        assert(split_rec(s, cur, acc) == split_rec(s.drop_first(), Seq::empty(), acc.push(x)));
    } else {
        assert(line_ok(cur.push(s[0]))) by {
            assert forall|i: int| 0 <= i < cur.push(s[0]).len() implies cur.push(s[0])[i]
                != '\n' by {
                if i < cur.len() {
                    assert(cur.push(s[0])[i] == cur[i]);
                } else {
                    assert(cur.push(s[0])[i] == s[0]);
                }
            }
        }
        lemma_split_rec_ok(s.drop_first(), cur.push(s[0]), acc);
        assert(split_rec(s, cur, acc) == split_rec(s.drop_first(), cur.push(s[0]), acc));
    }
}

/// A split produces at least the lines already accumulated, and one more as
/// soon as any input or a started piece remains.
proof fn lemma_split_rec_len(s: Seq<char>, cur: Seq<char>, acc: Seq<Seq<char>>)
    ensures
        split_rec(s, cur, acc).len() >= acc.len(),
        s.len() > 0 || cur.len() > 0 ==> split_rec(s, cur, acc).len() >= acc.len() + 1,
    decreases s.len(),
{
    if s.len() == 0 {
    } else if s[0] == '\n' {
        lemma_split_rec_len(s.drop_first(), Seq::empty(), acc.push(strip_cr(cur)));
    } else {
        lemma_split_rec_len(s.drop_first(), cur.push(s[0]), acc);
    }
}

/// Parsed content is a well-formed line sequence: never empty, no line feeds.
pub proof fn lemma_parse_content_wf(s: Seq<char>)
    ensures
        parse_content(s).len() >= 1,
        forall|i: int|
            0 <= i < parse_content(s).len() ==> line_ok(#[trigger] parse_content(s)[i]),
{
    if s.len() == 0 {
    } else {
        lemma_split_rec_len(s, Seq::empty(), Seq::empty());
        lemma_split_rec_ok(s, Seq::empty(), Seq::empty());
    }
}

/// Joining a buffer's lines and splitting the result reproduces them: the
/// save-then-load round trip. A line before the last must not end in a
/// carriage return (the separator after it would swallow it), and the last
/// line of several must be non-empty (a trailing separator adds no line).
pub proof fn lemma_save_load_round_trip(ls: Seq<Seq<char>>)
    requires
        ls.len() >= 1,
        forall|i: int| 0 <= i < ls.len() ==> line_ok(#[trigger] ls[i]),
        forall|i: int|
            0 <= i < ls.len() - 1 ==> (#[trigger] ls[i]).len() == 0 || ls[i].last() != '\r',
        ls.len() > 1 ==> ls.last().len() > 0,
    ensures
        parse_content(join_lines(ls)) == ls,
    decreases ls.len(),
{
    if ls.len() == 1 {
        let l = ls[0];
        if l.len() == 0 {
            assert(join_lines(ls) == l);
            assert(parse_content(join_lines(ls)) =~~= ls);
        } else {
            assert(join_lines(ls) == l);
            lemma_split_clean_prefix(l, Seq::empty(), Seq::empty(), Seq::empty());
            assert(l + Seq::<char>::empty() =~= l);
            assert(Seq::<char>::empty() + l =~= l);
            assert(split_rec(Seq::<char>::empty(), l, Seq::<Seq<char>>::empty()) =~= seq![l]);
            assert(split_lines(l) == seq![l]);
            assert(parse_content(l) == seq![l]);
            assert(seq![l] =~= ls);
        }
    } else {
        let l = ls[0];
        let rest = ls.drop_first();
        let t = join_lines(rest);
        assert(join_lines(ls) == l + seq!['\n'] + t);
        assert(join_lines(ls) =~= l + (seq!['\n'] + t));
        lemma_split_clean_prefix(l, seq!['\n'] + t, Seq::empty(), Seq::empty());
        assert(Seq::<char>::empty() + l =~= l);
        lemma_split_nl(t, l, Seq::empty());
        assert(strip_cr(l) == l);
        lemma_split_acc(t, Seq::empty(), Seq::<Seq<char>>::empty().push(l));
        assert forall|i: int| 0 <= i < rest.len() implies line_ok(#[trigger] rest[i]) by {
            assert(rest[i] == ls[i + 1]);
        }
        assert forall|i: int| 0 <= i < rest.len() - 1 implies (#[trigger] rest[i]).len() == 0
            || rest[i].last() != '\r' by {
            assert(rest[i] == ls[i + 1]);
        }
        assert(rest.last() == ls.last());
        lemma_save_load_round_trip(rest);
        assert(t.len() > 0) by {
            if rest.len() == 1 {
                assert(t == rest[0]);
                assert(rest[0] == ls.last());
            } else {
                assert(t == rest[0] + seq!['\n'] + join_lines(rest.drop_first()));
            }
        }
        assert(split_lines(t) == rest);
        assert(Seq::<Seq<char>>::empty().push(l) + rest =~= ls);
        assert(join_lines(ls).len() > 0);
        assert(parse_content(join_lines(ls)) == ls);
    }
}

} // verus!
