use vstd::prelude::*;

use crate::stack::Stack;

verus! {

/// The four binary operators of the expression language.
pub open spec fn is_operator_char(c: char) -> bool {
    c == '+' || c == '*' || c == '-' || c == '/'
}

/// Major-tier operators bind tighter than minor-tier ones (`+`, `-`).
pub open spec fn is_major_char(c: char) -> bool {
    c == '/' || c == '*'
}

/// An operand: any character that is neither an operator nor a parenthesis.
pub open spec fn is_operand_char(c: char) -> bool {
    !is_operator_char(c) && c != '(' && c != ')'
}

/// Effect of popping down to the matching `)` marker: returns the remaining
/// stack and the removed tokens in bottom-to-top order. The `)` itself is
/// consumed, not returned; with no `)` present the whole stack is removed.
pub open spec fn unwind_paren(st: Seq<char>) -> (Seq<char>, Seq<char>)
    decreases st.len(),
{
    if st.len() == 0 {
        (Seq::<char>::empty(), Seq::<char>::empty())
    } else if st.last() == ')' {
        (st.drop_last(), Seq::<char>::empty())
    } else {
        let (rest, seg) = unwind_paren(st.drop_last());
        (rest, seg.push(st.last()))
    }
}

/// Effect of popping the run of major-tier operators off the top of the
/// stack: returns the remaining stack and the run in bottom-to-top order.
pub open spec fn unwind_majors(st: Seq<char>) -> (Seq<char>, Seq<char>)
    decreases st.len(),
{
    if st.len() > 0 && is_major_char(st.last()) {
        let (rest, run) = unwind_majors(st.drop_last());
        (rest, run.push(st.last()))
    } else {
        (st, Seq::<char>::empty())
    }
}

/// One step of the right-to-left scan: how a single input character
/// transforms the operator stack and the output accumulator.
///
/// Operands are prepended to the output at once; `(` unwinds the stack to the
/// pending `)` marker; a minor-tier operator under a major-tier stack top
/// first unwinds the run of major operators; everything else (`)` and the
/// remaining operator cases) is pushed. Equal-precedence operators are never
/// popped against each other, which reproduces left-associative grouping.
pub open spec fn scan_char(st: Seq<char>, out: Seq<char>, c: char) -> (Seq<char>, Seq<char>) {
    if is_operand_char(c) {
        (st, seq![c] + out)
    } else if c == '(' {
        let (rest, seg) = unwind_paren(st);
        (rest, seg + out)
    } else if is_operator_char(c) && st.len() > 0 && is_major_char(st.last()) && !is_major_char(c) {
        let (rest, run) = unwind_majors(st);
        (rest.push(c), run + out)
    } else {
        (st.push(c), out)
    }
}

/// The whole scan: consumes `input` from its last character to its first,
/// threading the stack and output through `scan_char`.
pub open spec fn scan(input: Seq<char>, st: Seq<char>, out: Seq<char>) -> (Seq<char>, Seq<char>)
    decreases input.len(),
{
    if input.len() == 0 {
        (st, out)
    } else {
        let (st1, out1) = scan_char(st, out, input.last());
        scan(input.drop_last(), st1, out1)
    }
}

/// The prefix form of an infix expression: scan it right to left starting
/// from an empty stack and output, then drain the remaining stack into the
/// front of the output.
pub open spec fn prefix_form(input: Seq<char>) -> Seq<char> {
    let r = scan(input, Seq::<char>::empty(), Seq::<char>::empty());
    r.0 + r.1
}

pub fn is_operator(c: char) -> (r: bool)
    ensures
        r == is_operator_char(c),
{
    c == '+' || c == '*' || c == '-' || c == '/'
}

pub fn is_major_order(a: char) -> (r: bool)
    ensures
        r == is_major_char(a),
{
    a == '/' || a == '*'
}

/// `a` strictly outranks `b`: `a` is major-tier while `b` is not.
pub fn is_gt(a: char, b: char) -> (r: bool)
    ensures
        r == (is_major_char(a) && !is_major_char(b)),
{
    is_major_order(a) && !is_major_order(b)
}

/// Both operators sit in the minor tier.
pub fn minor_order(a: char, b: char) -> (r: bool)
    ensures
        r == (!is_major_char(a) && !is_major_char(b)),
{
    !is_major_order(a) && !is_major_order(b)
}

/// Pops tokens until a `)` marker is consumed (or the stack is drained),
/// returning the removed tokens in pop order.
fn find_parenthesis(stack: &mut Stack<char>) -> (buffer: Vec<char>)
    requires
        old(stack).wf(),
    ensures
        final(stack).wf(),
        final(stack)@ == unwind_paren(old(stack)@).0,
        buffer@ == unwind_paren(old(stack)@).1.reverse(),
        final(stack)@.len() + buffer@.len() <= old(stack)@.len(),
{
    let mut buffer: Vec<char> = Vec::new();
    loop
        invariant_except_break
            unwind_paren(old(stack)@).0 == unwind_paren(stack@).0,
            unwind_paren(old(stack)@).1 == unwind_paren(stack@).1 + buffer@.reverse(),
        invariant
            stack.wf(),
            stack@.len() + buffer@.len() <= old(stack)@.len(),
        ensures
            stack.wf(),
            stack@ == unwind_paren(old(stack)@).0,
            buffer@ == unwind_paren(old(stack)@).1.reverse(),
            stack@.len() + buffer@.len() <= old(stack)@.len(),
        decreases stack@.len(),
    {
        let ghost prev = stack@;
        match stack.pop() {
            None => {
                proof {
                    assert(unwind_paren(stack@).1 =~= Seq::<char>::empty());
                    assert(unwind_paren(old(stack)@).1 =~= buffer@.reverse());
                    assert(buffer@ =~= unwind_paren(old(stack)@).1.reverse());
                }
                break ;
            },
            Some(current) => {
                if current == ')' {
                    proof {
                        assert(unwind_paren(prev).0 == stack@);
                        assert(unwind_paren(prev).1 =~= Seq::<char>::empty());
                        assert(unwind_paren(old(stack)@).1 =~= buffer@.reverse());
                        assert(buffer@ =~= unwind_paren(old(stack)@).1.reverse());
                    }
                    break ;
                }
                buffer.push(current);
                proof {
                    assert(unwind_paren(prev).0 == unwind_paren(stack@).0);
                    assert(unwind_paren(prev).1 == unwind_paren(stack@).1.push(current));
                    assert(buffer@.reverse() =~= seq![current] + buffer@.drop_last().reverse());
                    assert(unwind_paren(stack@).1.push(current) =~= unwind_paren(stack@).1
                        + seq![current]);
                    assert(unwind_paren(stack@).1.push(current) + buffer@.drop_last().reverse()
                        =~= unwind_paren(stack@).1 + buffer@.reverse());
                }
            },
        }
    }
    buffer
}

/// Pops the run of major-tier operators off the top of the stack, returning
/// them in pop order. Only meaningful for a minor-tier incoming operator.
fn find_same_operator(stack: &mut Stack<char>, op: char) -> (buffer: Vec<char>)
    requires
        old(stack).wf(),
        !is_major_char(op),
    ensures
        final(stack).wf(),
        final(stack)@ == unwind_majors(old(stack)@).0,
        buffer@ == unwind_majors(old(stack)@).1.reverse(),
        final(stack)@.len() + buffer@.len() == old(stack)@.len(),
{
    let mut buffer: Vec<char> = Vec::new();
    loop
        invariant
            stack.wf(),
            !is_major_char(op),
            unwind_majors(old(stack)@).0 == unwind_majors(stack@).0,
            unwind_majors(old(stack)@).1 == unwind_majors(stack@).1 + buffer@.reverse(),
            stack@.len() + buffer@.len() == old(stack)@.len(),
        ensures
            stack.wf(),
            stack@ == unwind_majors(old(stack)@).0,
            buffer@ == unwind_majors(old(stack)@).1.reverse(),
            stack@.len() + buffer@.len() == old(stack)@.len(),
        decreases stack@.len(),
    {
        let stop = match stack.peek() {
            None => true,
            Some(current) => minor_order(*current, op),
        };
        if stop {
            proof {
                assert(unwind_majors(stack@).1 =~= Seq::<char>::empty());
                assert(unwind_majors(old(stack)@).1 =~= buffer@.reverse());
                assert(buffer@ =~= unwind_majors(old(stack)@).1.reverse());
            }
            break ;
        }
        let ghost prev = stack@;
        let val = stack.pop().unwrap();
        buffer.push(val);
        proof {
            assert(unwind_majors(prev).0 == unwind_majors(stack@).0);
            assert(unwind_majors(prev).1 == unwind_majors(stack@).1.push(val));
            assert(buffer@.reverse() =~= seq![val] + buffer@.drop_last().reverse());
            assert(unwind_majors(stack@).1.push(val) =~= unwind_majors(stack@).1 + seq![val]);
            assert(unwind_majors(stack@).1.push(val) + buffer@.drop_last().reverse()
                =~= unwind_majors(stack@).1 + buffer@.reverse());
        }
    }
    buffer
}

/// Prepends the given tokens to the output buffer, first token ending up
/// outermost: the buffer becomes `tokens` reversed, followed by what it held.
fn prepend_all(out: &mut Vec<char>, tokens: &Vec<char>)
    ensures
        final(out)@ == tokens@.reverse() + old(out)@,
{
    let mut k: usize = 0;
    while k < tokens.len()
        invariant
            k <= tokens@.len(),
            out@ == tokens@.take(k as int).reverse() + old(out)@,
        decreases tokens@.len() - k,
    {
        out.insert(0, tokens[k]);
        k += 1;
        proof {
            assert(tokens@.take(k as int).reverse() =~= seq![tokens@[k - 1]] + tokens@.take(
                k - 1,
            ).reverse());
            assert(out@ =~= tokens@.take(k as int).reverse() + old(out)@);
        }
    }
    proof {
        assert(tokens@.take(tokens@.len() as int) =~= tokens@);
    }
}

/// Scanning `seq![c] + s` is scanning `s` first and then applying one more
/// step for `c`: the scan consumes its input from the back.
proof fn lemma_scan_prepend(s: Seq<char>, st: Seq<char>, out: Seq<char>, c: char)
    ensures
        scan(seq![c] + s, st, out) == scan_char(
            scan(s, st, out).0,
            scan(s, st, out).1,
            c,
        ),
    decreases s.len(),
{
    if s.len() == 0 {
        let t = seq![c] + s;
        assert(t.len() == 1);
        assert(t.last() == c);
        assert(t.drop_last() =~= Seq::<char>::empty());
        let step = scan_char(st, out, c);
        assert(scan(t.drop_last(), step.0, step.1) == step);
        assert(scan(t, st, out) == step);
        assert(scan(s, st, out) == (st, out));
    } else {
        let t = seq![c] + s;
        assert(t.len() == s.len() + 1);
        assert(t.last() == s.last());
        assert(t.drop_last() =~= seq![c] + s.drop_last());
        let step = scan_char(st, out, s.last());
        lemma_scan_prepend(s.drop_last(), step.0, step.1, c);
        assert(scan(t, st, out) == scan(seq![c] + s.drop_last(), step.0, step.1));
        assert(scan(s, st, out) == scan(s.drop_last(), step.0, step.1));
    }
}

/// Law: an empty expression converts to an empty result.
pub proof fn lemma_empty_input()
    ensures
        prefix_form(Seq::<char>::empty()) == Seq::<char>::empty(),
{
    let e = Seq::<char>::empty();
    assert(scan(e, e, e) == (e, e));
    assert(e + e =~= e);
}

/// Law: a single operand converts to itself.
pub proof fn lemma_single_operand(c: char)
    requires
        is_operand_char(c),
    ensures
        prefix_form(seq![c]) == seq![c],
{
    let s = seq![c];
    let e = Seq::<char>::empty();
    assert(s.last() == c);
    assert(s.drop_last() =~= e);
    let step = scan_char(e, e, c);
    assert(step == (e, seq![c] + e));
    assert(scan(s.drop_last(), step.0, step.1) == step);
    assert(scan(s, e, e) == step);
    assert(seq![c] + e =~= seq![c]);
    assert(e + seq![c] =~= seq![c]);
}

/// Law: one operator between two operands converts to the operator followed
/// by the operands, in their original order.
pub proof fn lemma_operator_pair(a: char, op: char, b: char)
    requires
        is_operand_char(a),
        is_operand_char(b),
        is_operator_char(op),
    ensures
        prefix_form(seq![a, op, b]) == seq![op, a, b],
{
    let s = seq![a, op, b];
    let e = Seq::<char>::empty();
    assert(s.last() == b);
    assert(s.drop_last() =~= seq![a, op]);
    let step1 = scan_char(e, e, b);
    assert(step1 == (e, seq![b] + e));
    assert(scan(s, e, e) == scan(seq![a, op], step1.0, step1.1));
    assert((seq![a, op]).last() == op);
    assert((seq![a, op]).drop_last() =~= seq![a]);
    let step2 = scan_char(step1.0, step1.1, op);
    assert(step2 == (step1.0.push(op), step1.1));
    assert(scan(seq![a, op], step1.0, step1.1) == scan(seq![a], step2.0, step2.1));
    assert((seq![a]).last() == a);
    assert((seq![a]).drop_last() =~= e);
    let step3 = scan_char(step2.0, step2.1, a);
    assert(step3 == (step2.0, seq![a] + step2.1));
    assert(scan(e, step3.0, step3.1) == step3);
    assert(scan(seq![a], step2.0, step2.1) == step3);
    assert(step3.0 =~= seq![op]);
    assert(step3.1 =~= seq![a, b]);
    assert(step3.0 + step3.1 =~= seq![op, a, b]);
}

/// Law: left-to-right precedence composition over a three-operand chain.
/// When the first operator is minor-tier and the second major-tier, the major
/// group binds to the right operands; in every other pairing the chain groups
/// left-to-right, so the second operator comes out first.
pub proof fn lemma_precedence_composition(a: char, op1: char, b: char, op2: char, c: char)
    requires
        is_operand_char(a),
        is_operand_char(b),
        is_operand_char(c),
        is_operator_char(op1),
        is_operator_char(op2),
    ensures
        !is_major_char(op1) && is_major_char(op2) ==> prefix_form(seq![a, op1, b, op2, c])
            == seq![op1, a, op2, b, c],
        !(!is_major_char(op1) && is_major_char(op2)) ==> prefix_form(seq![a, op1, b, op2, c])
            == seq![op2, op1, a, b, c],
{
    let s = seq![a, op1, b, op2, c];
    let e = Seq::<char>::empty();
    assert(s.last() == c);
    assert(s.drop_last() =~= seq![a, op1, b, op2]);
    let t1 = scan_char(e, e, c);
    assert(t1 == (e, seq![c] + e));
    assert(scan(s, e, e) == scan(seq![a, op1, b, op2], t1.0, t1.1));
    assert((seq![a, op1, b, op2]).last() == op2);
    assert((seq![a, op1, b, op2]).drop_last() =~= seq![a, op1, b]);
    let t2 = scan_char(t1.0, t1.1, op2);
    assert(t2 == (t1.0.push(op2), t1.1));
    assert(scan(seq![a, op1, b, op2], t1.0, t1.1) == scan(seq![a, op1, b], t2.0, t2.1));
    assert((seq![a, op1, b]).last() == b);
    assert((seq![a, op1, b]).drop_last() =~= seq![a, op1]);
    let t3 = scan_char(t2.0, t2.1, b);
    assert(t3 == (t2.0, seq![b] + t2.1));
    assert(scan(seq![a, op1, b], t2.0, t2.1) == scan(seq![a, op1], t3.0, t3.1));
    assert((seq![a, op1]).last() == op1);
    assert((seq![a, op1]).drop_last() =~= seq![a]);
    assert(t3.0 =~= seq![op2]);
    assert(t3.0.last() == op2);
    let t4 = scan_char(t3.0, t3.1, op1);
    assert(scan(seq![a, op1], t3.0, t3.1) == scan(seq![a], t4.0, t4.1));
    let t5 = scan_char(t4.0, t4.1, a);
    assert(t5 == (t4.0, seq![a] + t4.1));
    assert(scan(e, t5.0, t5.1) == t5);
    assert((seq![a]).last() == a);
    assert((seq![a]).drop_last() =~= e);
    assert(scan(seq![a], t4.0, t4.1) == t5);
    if !is_major_char(op1) && is_major_char(op2) {
        assert((seq![op2]).drop_last() =~= e);
        assert(unwind_majors(e) == (e, Seq::<char>::empty()));
        assert(unwind_majors(t3.0) == (e, Seq::<char>::empty().push(op2)));
        assert(t4 == (e.push(op1), Seq::<char>::empty().push(op2) + t3.1));
        assert(t5.0 + t5.1 =~= seq![op1, a, op2, b, c]);
    } else {
        assert(t4 == (t3.0.push(op1), t3.1));
        assert(t5.0 + t5.1 =~= seq![op2, op1, a, b, c]);
    }
}

/// Relies on `String::from_iter` over `char` (via `collect`): the collected
/// string holds exactly the characters of the vector, in order.
#[verifier::external_body]
fn chars_to_string(v: &Vec<char>) -> (r: String)
    ensures
        r@ == v@,
{
    v.iter().collect()
}

/// Rewrites an infix arithmetic expression (single-character operands,
/// operators `+ - * /`, optional parentheses) into prefix order, in one
/// right-to-left pass over an operator stack.
pub fn pre_order(input: &str) -> (res: String)
    ensures
        res@ == prefix_form(input@),
{
    let mut stack: Stack<char> = Stack::new();
    let mut output: Vec<char> = Vec::new();
    let n = input.unicode_len();
    let mut i: usize = n;
    while i > 0
        invariant
            stack.wf(),
            n == input@.len(),
            i <= n,
            (stack@, output@) == scan(
                input@.skip(i as int),
                Seq::<char>::empty(),
                Seq::<char>::empty(),
            ),
            stack@.len() + output@.len() <= n - i,
        decreases i,
    {
        i = i - 1;
        let curr = input.get_char(i);
        let ghost st_prev = stack@;
        let ghost out_prev = output@;
        if !is_operator(curr) && curr != ')' && curr != '(' {
            output.insert(0, curr);
            proof {
                assert(output@ =~= seq![curr] + out_prev);
            }
        } else {
            if curr == '(' {
                let popped = find_parenthesis(&mut stack);
                prepend_all(&mut output, &popped);
                proof {
                    assert(popped@.reverse() =~= unwind_paren(st_prev).1);
                }
            } else {
                if is_operator(curr) {
                    let should_unwind = match stack.peek() {
                        None => false,
                        Some(p) => is_gt(*p, curr),
                    };
                    if should_unwind {
                        let popped = find_same_operator(&mut stack, curr);
                        prepend_all(&mut output, &popped);
                        proof {
                            assert(popped@.reverse() =~= unwind_majors(st_prev).1);
                        }
                    }
                }
                stack.push(curr);
            }
        }
        proof {
            assert((stack@, output@) == scan_char(st_prev, out_prev, curr));
            assert(input@.skip(i as int) =~= seq![input@[i as int]] + input@.skip(i as int + 1));
            lemma_scan_prepend(
                input@.skip(i as int + 1),
                Seq::<char>::empty(),
                Seq::<char>::empty(),
                input@[i as int],
            );
        }
    }
    proof {
        assert(input@.skip(0) =~= input@);
    }
    let ghost st_rest = stack@;
    let ghost out_done = output@;
    loop
        invariant
            stack.wf(),
            stack@ + output@ == st_rest + out_done,
        ensures
            output@ == st_rest + out_done,
        decreases stack@.len(),
    {
        let ghost prev = stack@;
        let ghost held = output@;
        match stack.pop() {
            None => {
                proof {
                    assert(output@ =~= stack@ + output@);
                }
                break ;
            },
            Some(value) => {
                output.insert(0, value);
                proof {
                    assert(output@ =~= seq![value] + held);
                    assert(stack@ + output@ =~= prev + held);
                }
            },
        }
    }
    chars_to_string(&output)
}

} // verus!
