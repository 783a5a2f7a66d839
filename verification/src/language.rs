//! A reading of kernel source: pieces of text, each with what it does when a kernel runs.
//! Numbers are whole numbers, and elements are anything.
use crate::dispatch::Binding;
use crate::text::decimal;
use vstd::prelude::*;

verus! {

/// What the expressions of views and the names and signs of float arithmetic stand for.
#[verifier::reject_recursive_types(E)]
pub struct Reading<E> {
    /// The value of an expression of a view, by the number of the element and the sizes that
    /// letters stand for.
    pub view: spec_fn(Seq<char>, int, spec_fn(char) -> int) -> int,
    pub literal: spec_fn(Seq<char>) -> E,
    pub call: spec_fn(Seq<char>, Seq<E>) -> E,
    pub infix: spec_fn(Seq<char>, E, E) -> E,
    pub less: spec_fn(E, E) -> bool,
}

/// What a thread knows by name.
#[verifier::reject_recursive_types(E)]
pub struct Memory<E> {
    pub numbers: Map<Seq<char>, int>,
    pub elements: Map<Seq<char>, E>,
    pub buffers: Map<Seq<char>, Seq<E>>,
}

/// A piece of text that stands for a number.
#[verifier::reject_recursive_types(E)]
pub struct Number<E> {
    pub text: Seq<char>,
    pub value: spec_fn(Memory<E>) -> int,
}

/// A piece of text that stands for an element.
#[verifier::reject_recursive_types(E)]
pub struct Element<E> {
    pub text: Seq<char>,
    pub value: spec_fn(Memory<E>) -> E,
}

/// A piece of text that holds or does not.
#[verifier::reject_recursive_types(E)]
pub struct Test<E> {
    pub text: Seq<char>,
    pub holds: spec_fn(Memory<E>) -> bool,
}

/// A piece of text that does something.
#[verifier::reject_recursive_types(E)]
pub struct Step<E> {
    pub text: Seq<char>,
    pub run: spec_fn(Memory<E>) -> Memory<E>,
}

/// The number under a name.
pub open spec fn known<E>(name: Seq<char>) -> Number<E> {
    Number { text: name, value: |m: Memory<E>| m.numbers[name] }
}

/// The sizes that the letters among the names stand for, 0 for any other letter.
pub open spec fn letter_sizes<E>(m: Memory<E>) -> spec_fn(char) -> int {
    |c: char|
        if m.numbers.contains_key(seq![c]) {
            m.numbers[seq![c]]
        } else {
            0
        }
}

/// An expression of a view, for the element under the name `idx`.
pub open spec fn viewed<E>(r: Reading<E>, text: Seq<char>) -> Number<E> {
    Number { text, value: |m: Memory<E>| (r.view)(text, m.numbers["idx"@], letter_sizes(m)) }
}

pub open spec fn times<E>(a: Number<E>, b: Number<E>) -> Number<E> {
    Number { text: a.text + " * "@ + b.text, value: |m: Memory<E>| (a.value)(m) * (b.value)(m) }
}

pub open spec fn plus<E>(a: Number<E>, b: Number<E>) -> Number<E> {
    Number { text: a.text + " + "@ + b.text, value: |m: Memory<E>| (a.value)(m) + (b.value)(m) }
}

pub open spec fn over<E>(a: Number<E>, b: Number<E>) -> Number<E> {
    Number { text: a.text + " / "@ + b.text, value: |m: Memory<E>| (a.value)(m) / (b.value)(m) }
}

pub open spec fn modulo<E>(a: Number<E>, b: Number<E>) -> Number<E> {
    Number { text: a.text + " % "@ + b.text, value: |m: Memory<E>| (a.value)(m) % (b.value)(m) }
}

pub open spec fn below<E>(a: Number<E>, b: Number<E>) -> Test<E> {
    Test { text: a.text + " < "@ + b.text, holds: |m: Memory<E>| (a.value)(m) < (b.value)(m) }
}

pub open spec fn nonzero<E>(a: Number<E>) -> Test<E> {
    Test { text: a.text + " != 0"@, holds: |m: Memory<E>| (a.value)(m) != 0 }
}

pub open spec fn is_zero<E>(a: Number<E>) -> Test<E> {
    Test { text: a.text + " == 0"@, holds: |m: Memory<E>| (a.value)(m) == 0 }
}

pub open spec fn bracketed<E>(a: Number<E>) -> Number<E> {
    Number { text: "("@ + a.text + ")"@, value: a.value }
}

/// The first test, and the second in brackets.
pub open spec fn both<E>(a: Test<E>, b: Test<E>) -> Test<E> {
    Test {
        text: a.text + " && ("@ + b.text + ")"@,
        holds: |m: Memory<E>| (a.holds)(m) && (b.holds)(m),
    }
}

/// The element under a name.
pub open spec fn held<E>(name: Seq<char>) -> Element<E> {
    Element { text: name, value: |m: Memory<E>| m.elements[name] }
}

pub open spec fn literal<E>(r: Reading<E>, text: Seq<char>) -> Element<E> {
    Element { text, value: |m: Memory<E>| (r.literal)(text) }
}

/// An element of the buffer under a name.
pub open spec fn at<E>(buffer: Seq<char>, i: Number<E>) -> Element<E> {
    Element {
        text: buffer + "["@ + i.text + "]"@,
        value: |m: Memory<E>| m.buffers[buffer][(i.value)(m)],
    }
}

/// A function of one element.
pub open spec fn called<E>(r: Reading<E>, f: Seq<char>, a: Element<E>) -> Element<E> {
    Element {
        text: f + "("@ + a.text + ")"@,
        value: |m: Memory<E>| (r.call)(f, seq![(a.value)(m)]),
    }
}

/// A function of two elements.
pub open spec fn called_on_two<E>(
    r: Reading<E>,
    f: Seq<char>,
    a: Element<E>,
    b: Element<E>,
) -> Element<E> {
    Element {
        text: f + "("@ + a.text + ", "@ + b.text + ")"@,
        value: |m: Memory<E>| (r.call)(f, seq![(a.value)(m), (b.value)(m)]),
    }
}

/// Two elements joined by a sign.
pub open spec fn joined<E>(
    r: Reading<E>,
    a: Element<E>,
    sign: Seq<char>,
    b: Element<E>,
) -> Element<E> {
    Element {
        text: a.text + " "@ + sign + " "@ + b.text,
        value: |m: Memory<E>| (r.infix)(sign, (a.value)(m), (b.value)(m)),
    }
}

/// The first element where the test holds, else the second.
pub open spec fn choice<E>(t: Test<E>, a: Element<E>, b: Element<E>) -> Element<E> {
    Element {
        text: t.text + " ? "@ + a.text + " : "@ + b.text,
        value: |m: Memory<E>|
            if (t.holds)(m) {
                (a.value)(m)
            } else {
                (b.value)(m)
            },
    }
}

pub open spec fn in_brackets<E>(a: Element<E>) -> Element<E> {
    Element { text: "("@ + a.text + ")"@, value: a.value }
}

/// An element with white space before and after it.
pub open spec fn spaced<E>(before: Seq<char>, a: Element<E>, after: Seq<char>) -> Element<E> {
    Element { text: before + a.text + after, value: a.value }
}

pub open spec fn less_elements<E>(r: Reading<E>, a: Element<E>, b: Element<E>) -> Test<E> {
    Test {
        text: a.text + " < "@ + b.text,
        holds: |m: Memory<E>| (r.less)((a.value)(m), (b.value)(m)),
    }
}

/// Gives a number a name. The text starts with its indentation and ends its line, as that of
/// every step does.
pub open spec fn name_number<E>(
    tab: Seq<char>,
    kind: Seq<char>,
    name: Seq<char>,
    a: Number<E>,
) -> Step<E> {
    Step {
        text: tab + kind + name + " = "@ + a.text + ";\n"@,
        run: |m: Memory<E>|
            Memory { numbers: m.numbers.insert(name, (a.value)(m)), ..m },
    }
}

/// Puts an element under a name, with `kind` in front of it.
pub open spec fn name_element<E>(
    tab: Seq<char>,
    kind: Seq<char>,
    name: Seq<char>,
    a: Element<E>,
) -> Step<E> {
    Step {
        text: tab + kind + name + " = "@ + a.text + ";\n"@,
        run: |m: Memory<E>|
            Memory { elements: m.elements.insert(name, (a.value)(m)), ..m },
    }
}

/// Adds to the element under a name.
pub open spec fn add_element<E>(
    r: Reading<E>,
    tab: Seq<char>,
    name: Seq<char>,
    a: Element<E>,
) -> Step<E> {
    Step {
        text: tab + name + " += "@ + a.text + ";\n"@,
        run: |m: Memory<E>|
            Memory {
                elements: m.elements.insert(
                    name,
                    (r.infix)("+"@, m.elements[name], (a.value)(m)),
                ),
                ..m
            },
    }
}

/// Writes an element of the buffer under a name.
pub open spec fn store<E>(
    tab: Seq<char>,
    buffer: Seq<char>,
    i: Number<E>,
    a: Element<E>,
) -> Step<E> {
    Step {
        text: tab + buffer + "["@ + i.text + "] = "@ + a.text + ";\n"@,
        run: |m: Memory<E>|
            Memory {
                buffers: m.buffers.insert(
                    buffer,
                    m.buffers[buffer].update((i.value)(m), (a.value)(m)),
                ),
                ..m
            },
    }
}

/// One step after another.
pub open spec fn followed<E>(a: Step<E>, b: Step<E>) -> Step<E> {
    Step { text: a.text + b.text, run: |m: Memory<E>| (b.run)((a.run)(m)) }
}

/// Does something where the test holds. The braces may be doubled.
pub open spec fn guarded<E>(
    tab: Seq<char>,
    t: Test<E>,
    left: Seq<char>,
    a: Step<E>,
    right: Seq<char>,
) -> Step<E> {
    Step {
        text: tab + "if ("@ + t.text + ") "@ + left + "\n"@ + a.text + tab + right + "\n"@,
        run: |m: Memory<E>|
            if (t.holds)(m) {
                (a.run)(m)
            } else {
                m
            },
    }
}

/// Does one thing where the test holds, else the other.
pub open spec fn either<E>(tab: Seq<char>, t: Test<E>, a: Step<E>, b: Step<E>) -> Step<E> {
    Step {
        text: tab + "if ("@ + t.text + ") {\n"@ + a.text + tab + "} else {\n"@ + b.text + tab
            + "}\n"@,
        run: |m: Memory<E>|
            if (t.holds)(m) {
                (a.run)(m)
            } else {
                (b.run)(m)
            },
    }
}

/// What is known once `run` was done for the first `k` numbers in turn, each under a name.
pub open spec fn repeated<E>(
    name: Seq<char>,
    run: spec_fn(Memory<E>) -> Memory<E>,
    k: nat,
    m: Memory<E>,
) -> Memory<E>
    decreases k,
{
    if k == 0 {
        m
    } else {
        let before = repeated(name, run, (k - 1) as nat, m);
        run(Memory { numbers: before.numbers.insert(name, k - 1), ..before })
    }
}

/// Does something for each number below a limit in turn.
pub open spec fn each_below<E>(
    tab: Seq<char>,
    name: Seq<char>,
    limit: Number<E>,
    a: Step<E>,
) -> Step<E> {
    Step {
        text: tab + "for (uint "@ + name + " = 0; "@ + name + " < "@ + limit.text + "; "@ + name
            + "++) {\n"@ + a.text + tab + "}\n"@,
        run: |m: Memory<E>| repeated(name, a.run, (limit.value)(m) as nat, m),
    }
}

/// What a thread is started with: what is bound to the buffer slots, what the input buffers and
/// the output buffer hold, and the number of the thread.
pub struct Start<E> {
    pub bindings: Seq<Binding>,
    pub inputs: Seq<Seq<E>>,
    pub out: Seq<E>,
    pub thread: int,
}

/// What the buffer in a slot holds.
pub open spec fn buffer_in<E>(s: Start<E>, slot: nat) -> Seq<E> {
    match s.bindings[slot as int] {
        Binding::Input(j) => s.inputs[j as int],
        Binding::Output => s.out,
        Binding::Int(_) => Seq::empty(),
    }
}

/// The number in a slot.
pub open spec fn number_in<E>(s: Start<E>, slot: nat) -> int {
    match s.bindings[slot as int] {
        Binding::Int(w) => w as int,
        _ => 0,
    }
}

/// The arguments of a kernel, the number of slots that they take, and what a thread knows by them.
#[verifier::reject_recursive_types(E)]
pub struct Signature<E> {
    pub text: Seq<char>,
    pub slots: nat,
    pub memory: spec_fn(Start<E>) -> Memory<E>,
}

/// The mark of a buffer slot.
pub open spec fn slot_text(slot: nat) -> Seq<char> {
    " [[buffer("@ + decimal(slot) + ")]]"@
}

/// One buffer, in the first slot.
pub open spec fn first_buffer<E>(name: Seq<char>) -> Signature<E> {
    Signature {
        text: "device float *"@ + name + slot_text(0),
        slots: 1,
        memory: |s: Start<E>|
            Memory {
                numbers: Map::empty(),
                elements: Map::empty(),
                buffers: Map::empty().insert(name, buffer_in(s, 0)),
            },
    }
}

/// One more buffer, in the next slot.
pub open spec fn and_buffer<E>(a: Signature<E>, name: Seq<char>) -> Signature<E> {
    Signature {
        text: a.text + ", device float *"@ + name + slot_text(a.slots),
        slots: a.slots + 1,
        memory: |s: Start<E>|
            {
                let m = (a.memory)(s);
                Memory { buffers: m.buffers.insert(name, buffer_in(s, a.slots)), ..m }
            },
    }
}

/// One more number, in the next slot.
pub open spec fn and_number<E>(a: Signature<E>, name: Seq<char>) -> Signature<E> {
    Signature {
        text: a.text + ", device uint& "@ + name + slot_text(a.slots),
        slots: a.slots + 1,
        memory: |s: Start<E>|
            {
                let m = (a.memory)(s);
                Memory { numbers: m.numbers.insert(name, number_in(s, a.slots)), ..m }
            },
    }
}

/// The number of the thread.
pub open spec fn and_thread<E>(a: Signature<E>, name: Seq<char>) -> Signature<E> {
    Signature {
        text: a.text + ", uint "@ + name + " [[thread_position_in_grid]]"@,
        slots: a.slots,
        memory: |s: Start<E>|
            {
                let m = (a.memory)(s);
                Memory { numbers: m.numbers.insert(name, s.thread), ..m }
            },
    }
}

/// One more number for each letter, in the next slots.
pub open spec fn and_letters<E>(a: Signature<E>, letters: Seq<char>) -> Signature<E>
    decreases letters.len(),
{
    if letters.len() == 0 {
        a
    } else {
        and_number(and_letters(a, letters.drop_last()), seq![letters.last()])
    }
}

/// The source of a kernel, with `mkernel` for its name, and what a thread leaves in the output
/// buffer.
#[verifier::reject_recursive_types(E)]
pub struct Program<E> {
    pub text: Seq<char>,
    pub thread: spec_fn(Start<E>) -> Seq<E>,
}

/// A kernel that writes the buffer under the name `out`.
pub open spec fn program<E>(
    lead: Seq<char>,
    a: Signature<E>,
    left: Seq<char>,
    body: Step<E>,
    right: Seq<char>,
) -> Program<E> {
    Program {
        text: lead + "#include <metal_stdlib>\nusing namespace metal;\nkernel void mkernel("@
            + a.text + ") "@ + left + "\n"@ + body.text + right + "\n"@,
        thread: |s: Start<E>| (body.run)((a.memory)(s)).buffers["out"@],
    }
}

/// What is in the output buffer, which held `out`, when a kernel has run with `n` threads.
pub open spec fn launched<E>(
    p: Program<E>,
    bindings: Seq<Binding>,
    inputs: Seq<Seq<E>>,
    out: Seq<E>,
    n: nat,
) -> Seq<E>
    decreases n,
{
    if n == 0 {
        out
    } else {
        (p.thread)(
            Start {
                bindings,
                inputs,
                out: launched(p, bindings, inputs, out, (n - 1) as nat),
                thread: n - 1,
            },
        )
    }
}

/// Where every thread writes its own element alone, all elements are written.
pub proof fn lemma_launched<E>(
    p: Program<E>,
    bindings: Seq<Binding>,
    inputs: Seq<Seq<E>>,
    out: Seq<E>,
    n: nat,
    f: spec_fn(int, E) -> E,
)
    requires
        n <= out.len(),
        forall|i: int, o: Seq<E>|
            0 <= i < n && o.len() == out.len() ==> #[trigger] (p.thread)(
                Start { bindings, inputs, out: o, thread: i },
            ) == o.update(i, f(i, o[i])),
    ensures
        launched(p, bindings, inputs, out, n) == Seq::new(
            out.len(),
            |i: int|
                if i < n {
                    f(i, out[i])
                } else {
                    out[i]
                },
        ),
    decreases n,
{
    let g = |i: int|
        if i < n {
            f(i, out[i])
        } else {
            out[i]
        };
    if n > 0 {
        lemma_launched(p, bindings, inputs, out, (n - 1) as nat, f);
        let o = launched(p, bindings, inputs, out, (n - 1) as nat);
        assert((p.thread)(Start { bindings, inputs, out: o, thread: n - 1 }) == o.update(
            n - 1,
            f(n - 1, o[n - 1]),
        ));
    }
    assert(launched(p, bindings, inputs, out, n) =~= Seq::new(out.len(), g));
}

/// What a thread knows once letters are among the arguments: each is the number in its slot, and
/// other names are what they were.
pub proof fn lemma_letters<E>(a: Signature<E>, letters: Seq<char>, s: Start<E>)
    requires
        letters.no_duplicates(),
    ensures
        and_letters(a, letters).slots == a.slots + letters.len(),
        ({
            let m = (a.memory)(s);
            let l = (and_letters(a, letters).memory)(s);
            &&& l.elements == m.elements
            &&& l.buffers == m.buffers
            &&& forall|k: int|
                0 <= k < letters.len() ==> l.numbers.contains_key(seq![#[trigger] letters[k]])
                    && l.numbers[seq![letters[k]]] == number_in(s, (a.slots + k) as nat)
            &&& forall|n: Seq<char>|
                !(n.len() == 1 && letters.contains(n[0])) ==> (#[trigger] l.numbers.contains_key(n)
                    == m.numbers.contains_key(n)) && l.numbers[n] == m.numbers[n]
        }),
    decreases letters.len(),
{
    if letters.len() > 0 {
        let rest = letters.drop_last();
        let c = letters.last();
        lemma_letters(a, rest, s);
        let m = (a.memory)(s);
        let b = (and_letters(a, rest).memory)(s);
        let l = (and_letters(a, letters).memory)(s);
        assert(l.numbers == b.numbers.insert(seq![c], number_in(s, (a.slots + rest.len()) as nat)));
        assert forall|k: int| 0 <= k < letters.len() implies l.numbers.contains_key(
            seq![#[trigger] letters[k]],
        ) && l.numbers[seq![letters[k]]] == number_in(s, (a.slots + k) as nat) by {
            if k < rest.len() {
                assert(rest[k] == letters[k]);
                assert(seq![letters[k]][0] == letters[k] && seq![c][0] == c);
                assert(letters[k] != letters[letters.len() - 1]);
            }
        }
        assert forall|n: Seq<char>|
            !(n.len() == 1 && letters.contains(n[0])) implies (#[trigger] l.numbers.contains_key(n)
            == m.numbers.contains_key(n)) && l.numbers[n] == m.numbers[n] by {
            assert(letters[letters.len() - 1] == c);
            assert(n != seq![c]) by {
                assert(seq![c][0] == c);
            }
            if n.len() == 1 && rest.contains(n[0]) {
                let k = choose|k: int| 0 <= k < rest.len() && rest[k] == n[0];
                assert(letters[k] == n[0]);
            }
        }
    }
}

} // verus!
