//! Loaded chunks and the model compiler.
//!
//! The machine's compiler is modeled over a minimal chunk encoding that
//! declares the chunk's behaviour directly: a tag byte followed by its
//! payload. Tag `B` (one digit `0`/`1`) yields a chunk returning a
//! boolean, tag `N` (an optional `-` and one to eighteen decimal
//! digits) a chunk returning a number, tag `S` a chunk returning the
//! rest of the input as a byte string, and tag `E` a chunk whose
//! protected call fails at run time with the rest of the input as its
//! diagnostic. Any other input carries a compile-time diagnostic.

use vstd::prelude::*;

use crate::values::LuaValue;
use crate::values::ValView;
use crate::values::clone_bytes;

verus! {

/// What a loaded chunk does when it is called under a protected call.
pub enum ChunkOutcome {
    /// The call succeeds and leaves this value on the stack.
    Returns(LuaValue),
    /// The call fails and leaves this diagnostic on the stack.
    Fails(Vec<u8>),
}

/// The mathematical shape of a loaded chunk.
pub ghost enum ChunkView {
    Returns(ValView),
    Fails(Seq<u8>),
}

impl View for ChunkOutcome {
    type V = ChunkView;

    open spec fn view(&self) -> ChunkView {
        match self {
            ChunkOutcome::Returns(v) => ChunkView::Returns(v@),
            ChunkOutcome::Fails(m) => ChunkView::Fails(m@),
        }
    }
}

/// Every byte of `s` is a decimal digit.
pub open spec fn is_digit_seq(s: Seq<u8>) -> bool {
    forall|i: int| 0 <= i < s.len() ==> 48 <= #[trigger] s[i] <= 57
}

/// The number denoted by a sequence of decimal digits.
pub open spec fn dec_val(s: Seq<u8>) -> int
    decreases s.len(),
{
    if s.len() == 0 {
        0
    } else {
        dec_val(s.drop_last()) * 10 + (s.last() - 48)
    }
}

/// Ten to the `n`.
pub open spec fn pow10(n: nat) -> int
    decreases n,
{
    if n == 0 {
        1
    } else {
        10 * pow10((n - 1) as nat)
    }
}

pub proof fn lemma_pow10_mono(a: nat, b: nat)
    requires
        a <= b,
    ensures
        0 < pow10(a) <= pow10(b),
    decreases b,
{
    if a == b {
        if b > 0 {
            lemma_pow10_mono((a - 1) as nat, (b - 1) as nat);
        }
    } else {
        lemma_pow10_mono(a, (b - 1) as nat);
    }
}

/// The behaviour compiled from a chunk whose tag byte is `N`.
pub open spec fn spec_number_chunk(bytes: Seq<u8>) -> Option<ChunkView> {
    let neg = bytes.len() >= 2 && bytes[1] == 45;
    let digits = if neg {
        bytes.skip(2)
    } else {
        bytes.skip(1)
    };
    if 1 <= digits.len() <= 18 && is_digit_seq(digits) {
        Some(
            ChunkView::Returns(
                ValView::Num(
                    if neg {
                        -dec_val(digits)
                    } else {
                        dec_val(digits)
                    },
                ),
            ),
        )
    } else {
        None
    }
}

/// What the model compiler makes of a byte sequence: the chunk it
/// loads, or nothing when the input carries a compile-time diagnostic.
pub open spec fn compile_spec(bytes: Seq<u8>) -> Option<ChunkView> {
    if bytes.len() == 0 {
        None
    } else if bytes[0] == 66 {
        if bytes.len() == 2 && (bytes[1] == 48 || bytes[1] == 49) {
            Some(ChunkView::Returns(ValView::Bool(bytes[1] == 49)))
        } else {
            None
        }
    } else if bytes[0] == 78 {
        spec_number_chunk(bytes)
    } else if bytes[0] == 83 {
        Some(ChunkView::Returns(ValView::Str(bytes.skip(1))))
    } else if bytes[0] == 69 {
        Some(ChunkView::Fails(bytes.skip(1)))
    } else {
        None
    }
}

/// Copies the bytes of `v` from position `from` on.
fn copy_tail(v: &Vec<u8>, from: usize) -> (r: Vec<u8>)
    requires
        from <= v@.len(),
    ensures
        r@ == v@.skip(from as int),
{
    let mut r: Vec<u8> = Vec::new();
    let mut i: usize = from;
    while i < v.len()
        invariant
            from <= i <= v@.len(),
            r@ == v@.subrange(from as int, i as int),
        decreases v@.len() - i,
    {
        r.push(v[i]);
        assert(r@ =~= v@.subrange(from as int, i + 1 as int));
        i = i + 1;
    }
    assert(r@ =~= v@.skip(from as int));
    r
}

/// Compiles a number chunk.
fn compile_number(bytes: &Vec<u8>) -> (r: Option<ChunkOutcome>)
    requires
        bytes@.len() >= 1,
        bytes@[0] == 78,
    ensures
        match spec_number_chunk(bytes@) {
            Some(cv) => r matches Some(c) && c@ == cv,
            None => r is None,
        },
{
    let neg = bytes.len() >= 2 && bytes[1] == 45;
    let start: usize = if neg {
        2
    } else {
        1
    };
    let ghost digits = bytes@.skip(start as int);
    let ndigits = bytes.len() - start;
    if ndigits < 1 || ndigits > 18 {
        return None;
    }
    let mut acc: i64 = 0;
    let mut i: usize = start;
    while i < bytes.len()
        invariant
            bytes@.len() >= 1,
            neg == (bytes@.len() >= 2 && bytes@[1] == 45),
            start == if neg { 2usize } else { 1usize },
            start <= i <= bytes@.len(),
            1 <= bytes@.len() - start <= 18,
            digits == bytes@.skip(start as int),
            is_digit_seq(bytes@.subrange(start as int, i as int)),
            acc == dec_val(bytes@.subrange(start as int, i as int)),
            0 <= acc < pow10((i - start) as nat),
        decreases bytes@.len() - i,
    {
        let d = bytes[i];
        if d < 48 || d > 57 {
            proof {
                assert(digits.len() == bytes@.len() - start);
                assert(digits[i - start] == bytes@.skip(start as int)[i - start]);
                assert(digits[i - start] == bytes@[i as int]);
                assert(!(48 <= digits[i - start] <= 57));
                assert(!is_digit_seq(digits));
            }
            return None;
        }
        proof {
            lemma_pow10_mono((i - start) as nat, 17);
            reveal_with_fuel(pow10, 19);
            assert(pow10(18) == 1000000000000000000);
            assert(acc * 10 <= (pow10((i - start) as nat) - 1) * 10);
            let prefix = bytes@.subrange(start as int, i as int);
            let next = bytes@.subrange(start as int, i + 1);
            assert(next.drop_last() =~= prefix);
            assert(next.last() == bytes@[i as int]);
        }
        acc = acc * 10 + ((d - 48) as i64);
        i = i + 1;
    }
    proof {
        assert(bytes@.subrange(start as int, bytes@.len() as int) =~= digits);
    }
    if neg {
        Some(ChunkOutcome::Returns(LuaValue::Number(-acc)))
    } else {
        Some(ChunkOutcome::Returns(LuaValue::Number(acc)))
    }
}

/// The model compiler: turns a byte sequence into the chunk it loads,
/// or reports a compile-time failure.
pub fn compile(bytes: &Vec<u8>) -> (r: Option<ChunkOutcome>)
    ensures
        match compile_spec(bytes@) {
            Some(cv) => r matches Some(c) && c@ == cv,
            None => r is None,
        },
{
    if bytes.len() == 0 {
        return None;
    }
    let tag = bytes[0];
    if tag == 66 {
        if bytes.len() == 2 && (bytes[1] == 48 || bytes[1] == 49) {
            Some(ChunkOutcome::Returns(LuaValue::Boolean(bytes[1] == 49)))
        } else {
            None
        }
    } else if tag == 78 {
        compile_number(bytes)
    } else if tag == 83 {
        Some(ChunkOutcome::Returns(LuaValue::Str(copy_tail(bytes, 1))))
    } else if tag == 69 {
        Some(ChunkOutcome::Fails(copy_tail(bytes, 1)))
    } else {
        None
    }
}

/// The diagnostic the model machine leaves on the stack when a chunk
/// fails to compile.
pub open spec fn syntax_msg() -> Seq<u8> {
    seq![98u8, 97u8, 100u8, 32u8, 99u8, 104u8, 117u8, 110u8, 107u8]
}

/// Builds the compile-time diagnostic as a byte string.
pub fn syntax_message() -> (r: Vec<u8>)
    ensures
        r@ == syntax_msg(),
        r@.len() > 0,
{
    let r: Vec<u8> = vec![98u8, 97u8, 100u8, 32u8, 99u8, 104u8, 117u8, 110u8, 107u8];
    proof {
        assert(r@ =~= syntax_msg());
    }
    r
}

impl ChunkOutcome {
    /// Copies a chunk description.
    pub fn duplicate(&self) -> (r: ChunkOutcome)
        ensures
            r@ == self@,
    {
        match self {
            ChunkOutcome::Returns(v) => ChunkOutcome::Returns(v.duplicate()),
            ChunkOutcome::Fails(m) => ChunkOutcome::Fails(clone_bytes(m)),
        }
    }
}

} // verus!
