//! Reading circuits gives back what was written, and nothing else is read.
use vstd::prelude::*;

use crate::circuit::{circuit_of, Gate, ParseError};
use crate::gate_laws::lemma_text_round_trip;
use crate::hexes::{hex_bytes, hex_text, is_hex};

verus! {

/// A number of two bytes, the less significant one first.
pub open spec fn two_bytes(n: int) -> Seq<u8> {
    seq![(n % 256) as u8, (n / 256) as u8]
}

/// A number of four bytes, the least significant one first.
pub open spec fn four_bytes(n: int) -> Seq<u8> {
    seq![
        (n % 256) as u8,
        (n / 256 % 256) as u8,
        (n / 65536 % 256) as u8,
        (n / 16777216) as u8,
    ]
}

/// A gate as it is written: its opcode, a zero, its target and its two controls.
pub open spec fn written_gate(g: Gate) -> Seq<u8> {
    seq![g.opcode, 0u8] + two_bytes(g.target as int) + two_bytes(g.ctrl_a as int) + two_bytes(
        g.ctrl_b as int,
    )
}

pub open spec fn written_gates(gates: Seq<Gate>) -> Seq<u8>
    decreases gates.len(),
{
    if gates.len() == 0 {
        Seq::empty()
    } else {
        written_gates(gates.drop_last()) + written_gate(gates.last())
    }
}

/// A circuit as it is written: the letters `GTV1`, the number of gates, the gates.
pub open spec fn written(gates: Seq<Gate>) -> Seq<u8> {
    seq![71u8, 84u8, 86u8, 49u8] + four_bytes(gates.len() as int) + written_gates(gates)
}

proof fn lemma_written_gates(gates: Seq<Gate>, i: int, j: int)
    requires
        0 <= i < gates.len(),
        0 <= j < 8,
    ensures
        written_gates(gates).len() == 8 * gates.len(),
        written_gates(gates)[8 * i + j] == written_gate(gates[i])[j],
    decreases gates.len(),
{
    let p = gates.drop_last();
    if p.len() > 0 {
        lemma_written_gates(p, if i < p.len() { i } else { 0 }, j);
    }
    assert(written_gates(p).len() == 8 * p.len());
}

proof fn lemma_written_len(gates: Seq<Gate>)
    ensures
        written(gates).len() == 8 + 8 * gates.len(),
{
    if gates.len() > 0 {
        lemma_written_gates(gates, 0, 0);
    }
}

proof fn lemma_written_at(gates: Seq<Gate>, i: int, j: int)
    requires
        0 <= i < gates.len(),
        0 <= j < 8,
    ensures
        written(gates)[8 + 8 * i + j] == written_gate(gates[i])[j],
{
    lemma_written_gates(gates, i, j);
}

proof fn lemma_two_bytes(n: u16)
    ensures
        (n as int % 256) as u8 + 256 * ((n as int / 256) as u8) == n,
{
}

proof fn lemma_count_written(n: int)
    requires
        0 <= n < 0x1_0000_0000,
    ensures
        ({
            let c = four_bytes(n);
            c.len() == 4 && c[0] + 256 * c[1] + 65536 * c[2] + 16777216 * c[3] == n
        }),
{
    let (q1, q2, q3) = (n / 256, n / 65536, n / 16777216);
    assert(q1 / 256 == q2);
    assert(q2 / 256 == q3);
    assert(0 <= q3 < 256);
}

/// Gate `i` of written bytes.
proof fn lemma_gate_written(gates: Seq<Gate>, i: int)
    requires
        0 <= i < gates.len(),
    ensures
        ({
            let b = written(gates);
            let o = 8 + 8 * i;
            &&& b[o] == gates[i].opcode
            &&& b[o + 2] + 256 * b[o + 3] == gates[i].target
            &&& b[o + 4] + 256 * b[o + 5] == gates[i].ctrl_a
            &&& b[o + 6] + 256 * b[o + 7] == gates[i].ctrl_b
        }),
{
    let g = gates[i];
    lemma_written_at(gates, i, 0);
    lemma_written_at(gates, i, 2);
    lemma_written_at(gates, i, 3);
    lemma_written_at(gates, i, 4);
    lemma_written_at(gates, i, 5);
    lemma_written_at(gates, i, 6);
    lemma_written_at(gates, i, 7);
    lemma_two_bytes(g.target);
    lemma_two_bytes(g.ctrl_a);
    lemma_two_bytes(g.ctrl_b);
}

/// What is written is read back: every gate with its opcode and all bits of its three
/// operands, in order.
pub proof fn lemma_written_is_read(gates: Seq<Gate>)
    requires
        gates.len() < 0x1_0000_0000,
    ensures
        circuit_of(written(gates)) == Ok::<Seq<Gate>, ParseError>(gates),
{
    let b = written(gates);
    lemma_written_len(gates);
    let n = gates.len() as int;
    lemma_count_written(n);
    let c = four_bytes(n);
    assert(b[4] == c[0] && b[5] == c[1] && b[6] == c[2] && b[7] == c[3]);
    let read = circuit_of(b);
    assert(read is Ok);
    assert forall|i: int| 0 <= i < n implies read->Ok_0[i] == gates[i] by {
        lemma_gate_written(gates, i);
    }
    assert(read->Ok_0 =~= gates);
}

/// The same through text.
pub proof fn lemma_written_text_is_read(gates: Seq<Gate>)
    requires
        gates.len() < 0x1_0000_0000,
    ensures
        is_hex(hex_text(written(gates))),
        circuit_of(hex_bytes(hex_text(written(gates)))) == Ok::<Seq<Gate>, ParseError>(gates),
{
    lemma_text_round_trip(written(gates));
    lemma_written_is_read(gates);
}

/// No two circuits are written alike.
pub proof fn lemma_writing_tells_apart(a: Seq<Gate>, b: Seq<Gate>)
    requires
        a.len() < 0x1_0000_0000,
        b.len() < 0x1_0000_0000,
        written(a) == written(b),
    ensures
        a == b,
{
    lemma_written_is_read(a);
    lemma_written_is_read(b);
}

/// A gate whose fields are given by eight bytes is written with them.
proof fn lemma_gate_bytes(g: Gate, c: Seq<u8>, j: int)
    requires
        c.len() == 8,
        g.opcode == c[0],
        g.target == c[2] + 256 * c[3],
        g.ctrl_a == c[4] + 256 * c[5],
        g.ctrl_b == c[6] + 256 * c[7],
        0 <= j < 8,
        j != 1,
    ensures
        written_gate(g)[j] == c[j],
{
    let w = written_gate(g);
    assert(w.len() == 8);
    assert(w[0] == g.opcode);
    assert(w[2] == (g.target as int % 256) as u8 && w[3] == (g.target as int / 256) as u8);
    assert(w[4] == (g.ctrl_a as int % 256) as u8 && w[5] == (g.ctrl_a as int / 256) as u8);
    assert(w[6] == (g.ctrl_b as int % 256) as u8 && w[7] == (g.ctrl_b as int / 256) as u8);
    assert(j == 0 || j == 2 || j == 3 || j == 4 || j == 5 || j == 6 || j == 7);
}

/// Gate `i` of a circuit that was read.
proof fn lemma_gate_read(b: Seq<u8>, gates: Seq<Gate>, i: int)
    requires
        circuit_of(b) == Ok::<Seq<Gate>, ParseError>(gates),
        0 <= i < gates.len(),
    ensures
        b.len() == 8 + 8 * gates.len(),
        gates[i].opcode == b[8 + 8 * i],
        gates[i].target == b[8 + 8 * i + 2] + 256 * b[8 + 8 * i + 3],
        gates[i].ctrl_a == b[8 + 8 * i + 4] + 256 * b[8 + 8 * i + 5],
        gates[i].ctrl_b == b[8 + 8 * i + 6] + 256 * b[8 + 8 * i + 7],
{
}

/// The bytes of a number are the ones that it is made of.
proof fn lemma_four_bytes(c: Seq<u8>, n: int)
    requires
        c.len() == 4,
        n == c[0] + 256 * c[1] + 65536 * c[2] + 16777216 * c[3],
    ensures
        four_bytes(n) == c,
{
    let (x, y, z, w) = (c[0] as int, c[1] as int, c[2] as int, c[3] as int);
    assert(n % 256 == x);
    assert(n / 256 == y + 256 * z + 65536 * w);
    assert(n / 256 % 256 == y);
    assert(n / 65536 == z + 256 * w);
    assert(n / 65536 % 256 == z);
    assert(n / 16777216 == w);
    assert(four_bytes(n) =~= c);
}

/// The count of a circuit that was read.
proof fn lemma_count_read(b: Seq<u8>, gates: Seq<Gate>)
    requires
        circuit_of(b) == Ok::<Seq<Gate>, ParseError>(gates),
    ensures
        b.len() == 8 + 8 * gates.len(),
        b[0] == 71 && b[1] == 84 && b[2] == 86 && b[3] == 49,
        gates.len() == b[4] + 256 * b[5] + 65536 * b[6] + 16777216 * b[7],
{
}

/// The head of a circuit that was read.
proof fn lemma_head_read(b: Seq<u8>, gates: Seq<Gate>, at: int)
    requires
        circuit_of(b) == Ok::<Seq<Gate>, ParseError>(gates),
        0 <= at < 8,
    ensures
        b.len() == 8 + 8 * gates.len(),
        b[at] == written(gates)[at],
{
    lemma_count_read(b, gates);
    let c = b.subrange(4, 8);
    lemma_four_bytes(c, gates.len() as int);
    let head = seq![71u8, 84u8, 86u8, 49u8];
    let w = written(gates);
    if at < 4 {
        assert(w[at] == head[at]);
        assert(at == 0 || at == 1 || at == 2 || at == 3);
    } else {
        assert(w[at] == four_bytes(gates.len() as int)[at - 4]);
        assert(c[at - 4] == b[at]);
    }
}

/// Bytes that are read as a circuit are that circuit as it is written, but for the
/// second byte of each gate, which is ignored.
pub proof fn lemma_read_was_written(b: Seq<u8>, gates: Seq<Gate>, at: int)
    requires
        circuit_of(b) == Ok::<Seq<Gate>, ParseError>(gates),
        0 <= at < b.len(),
        at < 8 || at % 8 != 1,
    ensures
        b.len() == written(gates).len(),
        b[at] == written(gates)[at],
{
    lemma_written_len(gates);
    lemma_head_read(b, gates, 0);
    if at >= 8 {
        let (i, j) = ((at - 8) / 8, at % 8);
        assert(at == 8 + 8 * i + j);
        lemma_written_at(gates, i, j);
        lemma_gate_read(b, gates, i);
        let c = b.subrange(8 + 8 * i, 16 + 8 * i);
        lemma_gate_bytes(gates[i], c, j);
    } else {
        lemma_head_read(b, gates, at);
    }
}

/// What is refused, and why: bytes that do not begin as a circuit does, and bytes that
/// are not as many as their count of gates asks for.
pub proof fn lemma_refused_bytes(b: Seq<u8>)
    requires
        b.len() <= usize::MAX,
    ensures
        ({
            let begins = b.len() >= 8 && b.take(4) == seq![71u8, 84u8, 86u8, 49u8];
            let wanted = 8 + 8 * (b[4] + 256 * (b[5] + 256 * (b[6] + 256 * b[7])));
            &&& circuit_of(b) == Err::<Seq<Gate>, ParseError>(ParseError::BadMagic) <==> !begins
            &&& circuit_of(b) is Ok <==> begins && b.len() == wanted
            &&& begins && b.len() != wanted ==> (circuit_of(b) matches Err(
                ParseError::LengthMismatch { got, expected },
            ) && got == b.len() && expected == wanted)
        }),
{
    let magic = seq![71u8, 84u8, 86u8, 49u8];
    if b.len() >= 8 {
        assert(b.take(4)[0] == b[0] && b.take(4)[1] == b[1] && b.take(4)[2] == b[2] && b.take(4)[3] == b[3]);
        if b[0] == 71 && b[1] == 84 && b[2] == 86 && b[3] == 49 {
            assert(b.take(4) =~= magic);
        } else if b.take(4) == magic {
            assert(magic[0] == b[0] && magic[1] == b[1] && magic[2] == b[2] && magic[3] == b[3]);
        }
    }
}

} // verus!
