//! The pass that takes the comments out of a source text.

use crate::scan::ends_run;
use crate::scan::run_len;
use crate::scan::Run;
use crate::text::chars_of;
use vstd::prelude::*;

verus! {

/// `src` from the character `from` on, without its comments.
///
/// A comment starts at a `#` that stands outside a string literal and
/// runs to the end of its line; the line end stays. A string literal is
/// kept as it is, also where it holds a `#`; one that is never closed
/// runs to the end of the source.
pub open spec fn without_comments(src: Seq<char>, from: int) -> Seq<char>
    decreases
            if from < src.len() {
                src.len() - from
            } else {
                0
            },
{
    if from < 0 || from >= src.len() {
        seq![]
    } else if src[from] == '#' {
        without_comments(src, from + 1 + run_len(src, from + 1, Run::Line))
    } else if src[from] == '"' {
        let close = from + 1 + run_len(src, from + 1, Run::Quoted);
        if close >= src.len() {
            src.subrange(from, src.len() as int)
        } else {
            src.subrange(from, close + 1) + without_comments(src, close + 1)
        }
    } else {
        seq![src[from]] + without_comments(src, from + 1)
    }
}

/// Whether `c` ends a comment, for `Run::Line`, or a string literal, for
/// `Run::Quoted`.
fn closes(run: Run, c: char) -> (out: bool)
    requires
        run == Run::Line || run == Run::Quoted,
    ensures
        out == ends_run(run, c),
{
    match run {
        Run::Line => c == '\n',
        _ => c == '"',
    }
}

/// The index at which the run of the kind `run` that starts at `from`
/// ends.
fn skip_run(chars: &Vec<char>, from: usize, run: Run) -> (out: usize)
    requires
        from <= chars@.len(),
        run == Run::Line || run == Run::Quoted,
    ensures
        out == from + run_len(chars@, from as int, run),
        out <= chars@.len(),
{
    let mut i: usize = from;
    while i < chars.len() && !closes(run, chars[i])
        invariant
            from <= i <= chars@.len(),
            run == Run::Line || run == Run::Quoted,
            from + run_len(chars@, from as int, run) == i + run_len(chars@, i as int, run),
        decreases chars@.len() - i,
    {
        i += 1;
    }
    i
}

/// Appends the characters `chars[from..to]` to `out`.
fn push_range(out: &mut String, chars: &Vec<char>, from: usize, to: usize)
    requires
        from <= to <= chars@.len(),
    ensures
        final(out)@ == old(out)@ + chars@.subrange(from as int, to as int),
{
    let ghost before = out@;
    let mut i: usize = from;
    proof {
        assert(before + chars@.subrange(from as int, from as int) =~= before);
    }
    while i < to
        invariant
            from <= i <= to <= chars@.len(),
            out@ == before + chars@.subrange(from as int, i as int),
        decreases to - i,
    {
        out.push(chars[i]);
        proof {
            assert((before + chars@.subrange(from as int, i as int)).push(chars@[i as int])
                =~= before + chars@.subrange(from as int, i + 1));
        }
        i += 1;
    }
}

/// The source text `source` without its comments: every `#` outside a
/// string literal is dropped together with the rest of its line, and
/// nothing else is.
pub fn comment_pass(source: &str) -> (out: String)
    ensures
        out@ == without_comments(source@, 0),
{
    let chars = chars_of(source);
    let mut out = String::new();
    let mut i: usize = 0;
    proof {
        assert(out@ + without_comments(chars@, 0) =~= without_comments(chars@, 0));
    }
    while i < chars.len()
        invariant
            i <= chars@.len(),
            chars@ == source@,
            without_comments(chars@, 0) == out@ + without_comments(chars@, i as int),
        decreases chars@.len() - i,
    {
        let ghost before = out@;
        let c = chars[i];
        if c == '#' {
            i = skip_run(&chars, i + 1, Run::Line);
        } else if c == '"' {
            let close = skip_run(&chars, i + 1, Run::Quoted);
            let end: usize = if close >= chars.len() {
                chars.len()
            } else {
                close + 1
            };
            push_range(&mut out, &chars, i, end);
            proof {
                let rest = without_comments(chars@, end as int);
                assert(before + (chars@.subrange(i as int, end as int) + rest) =~= (before
                    + chars@.subrange(i as int, end as int)) + rest);
                if close >= chars@.len() {
                    assert(chars@.subrange(i as int, end as int) + rest =~= chars@.subrange(
                        i as int,
                        end as int,
                    ));
                }
            }
            i = end;
        } else {
            out.push(c);
            proof {
                let rest = without_comments(chars@, i + 1);
                assert(before + (seq![c] + rest) =~= before.push(c) + rest);
            }
            i += 1;
        }
    }
    proof {
        assert(out@ + without_comments(chars@, i as int) =~= out@);
    }
    out
}

} // verus!
