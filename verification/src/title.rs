use vstd::prelude::*;

verus! {

/// The pieces of `s` between newlines (a text with `k` newlines has `k + 1`
/// pieces, possibly empty).
pub open spec fn split_at_newlines(s: Seq<char>) -> Seq<Seq<char>>
    decreases s.len(),
{
    if s.len() == 0 {
        seq![Seq::<char>::empty()]
    } else {
        let p = split_at_newlines(s.drop_last());
        if s.last() == '\n' {
            p.push(Seq::<char>::empty())
        } else {
            p.update(p.len() - 1, p.last().push(s.last()))
        }
    }
}

/// A line without the carriage return that ends it, if any.
pub open spec fn strip_cr(l: Seq<char>) -> Seq<char> {
    if l.len() > 0 && l.last() == '\r' {
        l.drop_last()
    } else {
        l
    }
}

/// The lines of a text as std's `str::lines` gives them: split at `\n`, or at
/// `\r\n`; a final line ending adds no empty line.
pub open spec fn text_lines(s: Seq<char>) -> Seq<Seq<char>> {
    let parts = split_at_newlines(s);
    let k = if parts.last().len() == 0 {
        parts.len() - 1
    } else {
        parts.len() as int
    };
    Seq::new(
        k as nat,
        |i: int|
            if i < parts.len() - 1 {
                strip_cr(parts[i])
            } else {
                parts[i]
            },
    )
}

/// A line with its first character moved to its end.
pub open spec fn rotate_left(l: Seq<char>) -> Seq<char> {
    if l.len() == 0 {
        l
    } else {
        l.drop_first().push(l[0])
    }
}

/// Lines joined with `\n` between them.
pub open spec fn join_lines(lines: Seq<Seq<char>>) -> Seq<char>
    decreases lines.len(),
{
    if lines.len() == 0 {
        Seq::<char>::empty()
    } else if lines.len() == 1 {
        lines[0]
    } else {
        join_lines(lines.drop_last()) + seq!['\n'] + lines.last()
    }
}

/// One step of the title animation: every line of the text turned one
/// character to the left.
pub open spec fn title_step(s: Seq<char>) -> Seq<char> {
    join_lines(text_lines(s).map_values(|l: Seq<char>| rotate_left(l)))
}

proof fn lemma_split_nonempty(s: Seq<char>)
    ensures
        split_at_newlines(s).len() >= 1,
    decreases s.len(),
{
    if s.len() > 0 {
        lemma_split_nonempty(s.drop_last());
    }
}

/// A line turned one character to the left, without its final `\r` when
/// `strip` is set.
fn finish_line(line: &Vec<char>, strip: bool) -> (r: Vec<char>)
    ensures
        r@ == rotate_left(
            if strip {
                strip_cr(line@)
            } else {
                line@
            },
        ),
{
    let mut n = line.len();
    if strip && n > 0 && line[n - 1] == '\r' {
        n = n - 1;
    }
    let ghost l = if strip {
        strip_cr(line@)
    } else {
        line@
    };
    assert(l =~= line@.subrange(0, n as int));
    let mut r: Vec<char> = Vec::new();
    if n == 0 {
        return r;
    }
    let mut i: usize = 1;
    while i < n
        invariant
            1 <= i <= n <= line.len(),
            r@ =~= line@.subrange(1, i as int),
        decreases n - i,
    {
        r.push(line[i]);
        i = i + 1;
    }
    r.push(line[0]);
    assert(r@ =~= l.drop_first().push(l[0]));
    r
}

/// One step of the title animation: every line of `text` turned one character
/// to the left, the lines joined with `\n`.
pub fn rotate_title(text: &Vec<char>) -> (r: Vec<char>)
    ensures
        r@ == title_step(text@),
{
    let mut out: Vec<char> = Vec::new();
    let mut current: Vec<char> = Vec::new();
    let mut first = true;
    let mut i: usize = 0;
    proof {
        assert(text@.subrange(0, 0) =~= Seq::<char>::empty());
    }
    while i < text.len()
        invariant
            i <= text.len(),
            ({
                let parts = split_at_newlines(text@.subrange(0, i as int));
                &&& parts.len() >= 1
                &&& current@ == parts.last()
                &&& first == (parts.len() == 1)
                &&& out@ == join_lines(
                    parts.drop_last().map_values(|l: Seq<char>| rotate_left(strip_cr(l))),
                )
            }),
        decreases text.len() - i,
    {
        let ghost pre = text@.subrange(0, i as int);
        let ghost parts = split_at_newlines(pre);
        let c = text[i];
        proof {
            assert(text@.subrange(0, i + 1).drop_last() =~= pre);
            lemma_split_nonempty(pre);
        }
        if c == '\n' {
            let mut done = finish_line(&current, true);
            let ghost prev_out = out@;
            if !first {
                out.push('\n');
            }
            out.append(&mut done);
            current = Vec::new();
            first = false;
            proof {
                let np = split_at_newlines(text@.subrange(0, i + 1));
                assert(np == parts.push(Seq::<char>::empty()));
                let f = |l: Seq<char>| rotate_left(strip_cr(l));
                let a = parts.drop_last().map_values(f);
                let b = np.drop_last().map_values(f);
                assert(np.drop_last() =~= parts);
                assert(b =~= a.push(f(parts.last())));
                assert(b.drop_last() =~= a);
                if a.len() == 0 {
                    assert(out@ =~= f(parts.last()));
                } else {
                    assert(out@ =~= prev_out + seq!['\n'] + f(parts.last()));
                }
            }
        } else {
            current.push(c);
            proof {
                let np = split_at_newlines(text@.subrange(0, i + 1));
                assert(np == parts.update(parts.len() - 1, parts.last().push(c)));
                assert(np.drop_last() =~= parts.drop_last());
            }
        }
        i = i + 1;
    }
    let ghost parts = split_at_newlines(text@);
    proof {
        assert(text@.subrange(0, text.len() as int) =~= text@);
    }
    if current.len() > 0 {
        let mut done = finish_line(&current, false);
        let ghost prev_out = out@;
        if !first {
            out.push('\n');
        }
        out.append(&mut done);
        proof {
            let lines = text_lines(text@);
            let f = |l: Seq<char>| rotate_left(strip_cr(l));
            let a = parts.drop_last().map_values(f);
            let m = lines.map_values(|l: Seq<char>| rotate_left(l));
            assert(m =~= a.push(rotate_left(parts.last())));
            assert(m.drop_last() =~= a);
            if a.len() == 0 {
                assert(out@ =~= rotate_left(parts.last()));
            } else {
                assert(out@ =~= prev_out + seq!['\n'] + rotate_left(parts.last()));
            }
        }
    } else {
        proof {
            let lines = text_lines(text@);
            let f = |l: Seq<char>| rotate_left(strip_cr(l));
            assert(lines.map_values(|l: Seq<char>| rotate_left(l)) =~= parts.drop_last().map_values(
                f,
            ));
        }
    }
    out
}

} // verus!
