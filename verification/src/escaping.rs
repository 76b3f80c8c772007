//! Depth-aware escaping: rewrites bare nested objects and arrays into
//! properly quoted and escaped JSON string content.
//!
//! The transform is specified as a small-step machine over the decoded
//! character stream. The machine keeps a stack of frames, one per open
//! container; a frame records the escaping depth of its contents,
//! whether a nested object found in it must be wrapped in quotes,
//! whether it counts as a string-encoding boundary for nested objects,
//! and the characters owed to the output when the frame closes.

use vstd::arithmetic::power2::lemma_pow2_unfold;
use vstd::arithmetic::power2::pow2;
use vstd::prelude::*;

verus! {

/// Failure of the escaper on malformed input.
#[derive(Debug, Clone, Copy, PartialEq, Eq, Structural)]
pub enum TransError {
    /// An opened `{` or `[` was never closed before the input ended.
    UnterminatedStructure,
}

/// One open container during the scan.
pub struct Frame {
    /// Count of string-encoding boundaries crossed from the document
    /// root to the contents of this container.
    pub level: nat,
    /// Whether a nested `{` met in this container must be wrapped in an
    /// escaped quote (false only inside array contents).
    pub not_array_elem: bool,
    /// Whether entering a nested `{` from this container crosses one
    /// more string-encoding boundary (false only under a root array).
    pub boundary: bool,
    /// Characters owed to the output when this container closes.
    pub close: Seq<char>,
}

/// The machine state: the output built so far and the open containers,
/// innermost last.
pub struct ScanState {
    pub out: Seq<char>,
    pub stack: Seq<Frame>,
}

/// The backslash run that escapes a quote at the given depth. Each
/// further round of JSON string encoding doubles the run and adds one
/// backslash.
pub open spec fn esc_run(level: nat) -> Seq<char>
    decreases level,
{
    if level == 0 {
        Seq::empty()
    } else {
        esc_run((level - 1) as nat) + esc_run((level - 1) as nat) + seq!['\\']
    }
}

/// A quote escaped for the given depth: the backslash run, then `"`.
pub open spec fn quote_at(level: nat) -> Seq<char> {
    esc_run(level) + seq!['"']
}

/// The backslash run at depth `level` has length `2^level - 1` and
/// consists of backslashes only.
pub proof fn lemma_esc_run_length(level: nat)
    ensures
        esc_run(level).len() + 1 == pow2(level),
        forall|i: int| 0 <= i < esc_run(level).len() ==> esc_run(level)[i] == '\\',
    decreases level,
{
    if level == 0 {
        assert(pow2(0) == 1) by {
            vstd::arithmetic::power2::lemma2_to64();
        }
    } else {
        let prev = (level - 1) as nat;
        lemma_esc_run_length(prev);
        lemma_pow2_unfold(level);
        let e = esc_run(prev);
        assert forall|i: int| 0 <= i < esc_run(level).len() implies esc_run(level)[i]
            == '\\' by {
            if i < e.len() {
                assert(esc_run(level)[i] == e[i]);
            } else if i < 2 * e.len() {
                assert(esc_run(level)[i] == e[i - e.len()]);
            }
        }
    }
}

/// One step of the scan: how a single input character extends the
/// output and the stack of open containers.
pub open spec fn step(st: ScanState, c: char) -> ScanState {
    if st.stack.len() == 0 {
        // At the document root. A root object opens a boundary frame;
        // a root array opens a frame whose elements stay plain.
        if c == '{' {
            ScanState {
                out: st.out.push('{'),
                stack: st.stack.push(
                    Frame { level: 0, not_array_elem: true, boundary: true, close: Seq::empty() },
                ),
            }
        } else if c == '[' {
            ScanState {
                out: st.out.push('['),
                stack: st.stack.push(
                    Frame { level: 0, not_array_elem: false, boundary: false, close: Seq::empty() },
                ),
            }
        } else {
            ScanState { out: st.out.push(c), stack: st.stack }
        }
    } else {
        let f = st.stack.last();
        if c == '"' {
            // A literal quote must survive `level` rounds of encoding.
            ScanState { out: st.out + quote_at(f.level), stack: st.stack }
        } else if c == '{' {
            // A nested object becomes a quoted string value, unless it
            // is a plain array element; its contents sit one boundary
            // deeper unless this container is under a root array.
            let prefix = if f.not_array_elem {
                quote_at(f.level)
            } else {
                Seq::<char>::empty()
            };
            let child_level = if f.boundary {
                f.level + 1
            } else {
                f.level
            };
            ScanState {
                out: st.out + prefix + seq!['{'],
                stack: st.stack.push(
                    Frame {
                        level: child_level as nat,
                        not_array_elem: true,
                        boundary: true,
                        close: prefix,
                    },
                ),
            }
        } else if c == '}' {
            // Close the object, then pay what the frame owes (the
            // closing half of the quote opened for it, if any).
            ScanState { out: st.out + seq!['}'] + f.close, stack: st.stack.drop_last() }
        } else if c == '[' {
            // A nested array always becomes a quoted string; its
            // elements are plain JSON inside that string, at the same
            // depth.
            ScanState {
                out: st.out + quote_at(f.level) + seq!['['],
                stack: st.stack.push(
                    Frame {
                        level: f.level,
                        not_array_elem: false,
                        boundary: true,
                        close: Seq::empty(),
                    },
                ),
            }
        } else if c == ']' {
            // Close the array; a nested array closes its own quote, a
            // root array does not. Then pay what the frame owes.
            let quote = if f.boundary {
                quote_at(f.level)
            } else {
                Seq::<char>::empty()
            };
            ScanState { out: st.out + seq![']'] + quote + f.close, stack: st.stack.drop_last() }
        } else {
            ScanState { out: st.out.push(c), stack: st.stack }
        }
    }
}

/// The machine run over a whole character sequence, from the empty
/// state.
pub open spec fn scan(s: Seq<char>) -> ScanState
    decreases s.len(),
{
    if s.len() == 0 {
        ScanState { out: Seq::empty(), stack: Seq::empty() }
    } else {
        step(scan(s.drop_last()), s.last())
    }
}

/// Whether the input is well formed for the escaper: every opened
/// container is closed again by the end of the input.
pub open spec fn escape_ok(s: Seq<char>) -> bool {
    scan(s).stack.len() == 0
}

/// The escaped form of the input: the machine's output.
pub open spec fn escape_spec(s: Seq<char>) -> Seq<char> {
    scan(s).out
}

/// One open container as the implementation keeps it: the backslash
/// run for its depth instead of the depth itself.
struct EFrame {
    esc: Vec<char>,
    not_array_elem: bool,
    boundary: bool,
    close: Vec<char>,
}

spec fn frame_matches(e: EFrame, f: Frame) -> bool {
    &&& e.esc@ == esc_run(f.level)
    &&& e.not_array_elem == f.not_array_elem
    &&& e.boundary == f.boundary
    &&& e.close@ == f.close
}

spec fn stack_matches(es: Seq<EFrame>, fs: Seq<Frame>) -> bool {
    &&& es.len() == fs.len()
    &&& forall|i: int| 0 <= i < es.len() ==> frame_matches(#[trigger] es[i], fs[i])
}

proof fn lemma_stack_matches_push(es: Seq<EFrame>, fs: Seq<Frame>, e: EFrame, f: Frame)
    requires
        stack_matches(es, fs),
        frame_matches(e, f),
    ensures
        stack_matches(es.push(e), fs.push(f)),
{
    assert forall|i: int| 0 <= i < es.push(e).len() implies frame_matches(
        #[trigger] es.push(e)[i],
        fs.push(f)[i],
    ) by {
        if i < es.len() {
            assert(es.push(e)[i] == es[i]);
            assert(fs.push(f)[i] == fs[i]);
            assert(frame_matches(es[i], fs[i]));
        } else {
            assert(es.push(e)[i] == e);
            assert(fs.push(f)[i] == f);
        }
    }
}

proof fn lemma_stack_matches_pop(es: Seq<EFrame>, fs: Seq<Frame>)
    requires
        stack_matches(es, fs),
        es.len() > 0,
    ensures
        stack_matches(es.drop_last(), fs.drop_last()),
        frame_matches(es.last(), fs.last()),
{
    assert(frame_matches(es[es.len() - 1], fs[fs.len() - 1]));
    assert forall|i: int| 0 <= i < es.drop_last().len() implies frame_matches(
        #[trigger] es.drop_last()[i],
        fs.drop_last()[i],
    ) by {
        assert(es.drop_last()[i] == es[i]);
        assert(fs.drop_last()[i] == fs[i]);
        assert(frame_matches(es[i], fs[i]));
    }
}

/// Appends every character of `src` to `out`.
fn push_all(out: &mut Vec<char>, src: &Vec<char>)
    ensures
        final(out)@ == old(out)@ + src@,
{
    let mut j: usize = 0;
    while j < src.len()
        invariant
            j <= src.len(),
            out@ == old(out)@ + src@.take(j as int),
        decreases src.len() - j,
    {
        out.push(src[j]);
        proof {
            assert(src@.take(j as int).push(src@[j as int]) =~= src@.take(j + 1 as int));
            assert(old(out)@ + src@.take(j as int).push(src@[j as int]) =~= (old(out)@
                + src@.take(j as int)).push(src@[j as int]));
        }
        j = j + 1;
    }
    proof {
        assert(src@.take(src@.len() as int) =~= src@);
    }
}

/// A fresh copy of the characters.
fn dup(src: &Vec<char>) -> (r: Vec<char>)
    ensures
        r@ == src@,
{
    let mut r: Vec<char> = Vec::new();
    push_all(&mut r, src);
    proof {
        assert(Seq::<char>::empty() + src@ =~= src@);
    }
    r
}

/// Rewrites the characters of a well-formed nested JSON document so
/// that every bare nested object or array becomes a properly quoted,
/// escaped JSON string; reports an error, and hands out nothing else,
/// when some opened container is never closed.
pub(crate) fn escape_for_nested_json(s: &Vec<char>) -> (r: Result<Vec<char>, TransError>)
    ensures
        (r is Ok <==> escape_ok(s@)),
        (r matches Ok(t) ==> t@ == escape_spec(s@)),
        (r matches Err(e) ==> e == TransError::UnterminatedStructure),
{
    let mut out: Vec<char> = Vec::new();
    let mut stack: Vec<EFrame> = Vec::new();
    let mut i: usize = 0;
    while i < s.len()
        invariant
            i <= s.len(),
            out@ == scan(s@.take(i as int)).out,
            stack_matches(stack@, scan(s@.take(i as int)).stack),
        decreases s.len() - i,
    {
        let c = s[i];
        let ghost st = scan(s@.take(i as int));
        let ghost st2 = step(st, c);
        proof {
            assert(s@.take(i + 1 as int).drop_last() =~= s@.take(i as int));
            assert(s@.take(i + 1 as int).last() == c);
            assert(scan(s@.take(i + 1 as int)) == st2);
        }
        if stack.len() == 0 {
            if c == '{' {
                out.push('{');
                let frame = EFrame {
                    esc: Vec::new(),
                    not_array_elem: true,
                    boundary: true,
                    close: Vec::new(),
                };
                proof {
                    lemma_stack_matches_push(stack@, st.stack, frame, st2.stack.last());
                }
                stack.push(frame);
            } else if c == '[' {
                out.push('[');
                let frame = EFrame {
                    esc: Vec::new(),
                    not_array_elem: false,
                    boundary: false,
                    close: Vec::new(),
                };
                proof {
                    lemma_stack_matches_push(stack@, st.stack, frame, st2.stack.last());
                }
                stack.push(frame);
            } else {
                out.push(c);
            }
        } else {
            let top: usize = stack.len() - 1;
            let ghost f = st.stack.last();
            proof {
                assert(frame_matches(stack@[top as int], st.stack[top as int]));
            }
            if c == '"' {
                push_all(&mut out, &stack[top].esc);
                out.push('"');
                proof {
                    assert(out@ =~= st.out + quote_at(f.level));
                }
            } else if c == '{' {
                let quoted = stack[top].not_array_elem;
                let deeper = stack[top].boundary;
                if quoted {
                    push_all(&mut out, &stack[top].esc);
                    out.push('"');
                }
                out.push('{');
                let mut child_esc = dup(&stack[top].esc);
                if deeper {
                    push_all(&mut child_esc, &stack[top].esc);
                    child_esc.push('\\');
                }
                let mut close: Vec<char> = Vec::new();
                if quoted {
                    close = dup(&stack[top].esc);
                    close.push('"');
                }
                let frame = EFrame {
                    esc: child_esc,
                    not_array_elem: true,
                    boundary: true,
                    close,
                };
                proof {
                    if quoted {
                        assert(out@ =~= st.out + quote_at(f.level) + seq!['{']);
                        assert(frame.close@ =~= quote_at(f.level));
                    } else {
                        assert(st.out + Seq::<char>::empty() + seq!['{'] =~= st.out.push('{'));
                        assert(frame.close@ =~= Seq::<char>::empty());
                    }
                    if deeper {
                        assert(frame.esc@ =~= esc_run((f.level + 1) as nat));
                    }
                    lemma_stack_matches_push(stack@, st.stack, frame, st2.stack.last());
                }
                stack.push(frame);
            } else if c == '}' {
                let ghost es0 = stack@;
                proof {
                    lemma_stack_matches_pop(es0, st.stack);
                }
                out.push('}');
                let popped = stack.pop().unwrap();
                proof {
                    assert(stack@ =~= es0.drop_last());
                    assert(popped == es0.last());
                }
                push_all(&mut out, &popped.close);
                proof {
                    assert(out@ =~= st.out + seq!['}'] + f.close);
                }
            } else if c == '[' {
                push_all(&mut out, &stack[top].esc);
                out.push('"');
                out.push('[');
                let child_esc = dup(&stack[top].esc);
                let frame = EFrame {
                    esc: child_esc,
                    not_array_elem: false,
                    boundary: true,
                    close: Vec::new(),
                };
                proof {
                    assert(out@ =~= st.out + quote_at(f.level) + seq!['[']);
                    lemma_stack_matches_push(stack@, st.stack, frame, st2.stack.last());
                }
                stack.push(frame);
            } else if c == ']' {
                let ghost es0 = stack@;
                proof {
                    lemma_stack_matches_pop(es0, st.stack);
                }
                out.push(']');
                let popped = stack.pop().unwrap();
                proof {
                    assert(stack@ =~= es0.drop_last());
                    assert(popped == es0.last());
                }
                if popped.boundary {
                    push_all(&mut out, &popped.esc);
                    out.push('"');
                }
                push_all(&mut out, &popped.close);
                proof {
                    if f.boundary {
                        assert(out@ =~= st.out + seq![']'] + quote_at(f.level) + f.close);
                    } else {
                        assert(out@ =~= st.out + seq![']'] + Seq::<char>::empty() + f.close);
                    }
                }
            } else {
                out.push(c);
            }
        }
        i = i + 1;
    }
    proof {
        assert(s@.take(s@.len() as int) =~= s@);
    }
    if stack.len() == 0 {
        Ok(out)
    } else {
        Err(TransError::UnterminatedStructure)
    }
}

} // verus!
