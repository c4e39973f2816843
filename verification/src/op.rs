//! Drawing directives: the resolved stream a layout pass consumes, and the
//! prefix-skip transform used for multi-page rendering.

use vstd::prelude::*;

use crate::display::{Color, Font, FontM};

verus! {

/// One drawing directive of the resolved stream.
pub enum Op<'a> {
    /// Render text with the current color and font.
    Text(&'a [u8]),
    /// Set the current text color.
    Color(Color),
    /// Set the current font.
    Font(Font),
}

/// Mathematical model of a directive.
pub enum OpM {
    Text(Seq<u8>),
    Color(Color),
    Font(FontM),
}

impl<'a> View for Op<'a> {
    type V = OpM;

    open spec fn view(&self) -> OpM {
        match self {
            Op::Text(b) => OpM::Text(b@),
            Op::Color(c) => OpM::Color(*c),
            Op::Font(f) => OpM::Font(f@),
        }
    }
}

/// The models of a list of directives.
pub open spec fn ops_view(ops: Seq<Op>) -> Seq<OpM> {
    ops.map(|_i: int, op: Op| op@)
}

/// `ops` with the first `n` bytes of its cumulative text content dropped:
/// non-text directives pass through unchanged, text directives are consumed
/// until `n` bytes are gone, and the directive the boundary falls inside
/// keeps only its tail.
pub open spec fn skip_ops(ops: Seq<OpM>, n: int) -> Seq<OpM>
    decreases ops.len(),
{
    if ops.len() == 0 {
        ops
    } else {
        match ops[0] {
            OpM::Text(t) => {
                if n > 0 {
                    if t.len() > n {
                        seq![OpM::Text(t.skip(n))] + skip_ops(ops.skip(1), 0)
                    } else {
                        skip_ops(ops.skip(1), n - t.len())
                    }
                } else {
                    seq![ops[0]] + skip_ops(ops.skip(1), n)
                }
            },
            _ => seq![ops[0]] + skip_ops(ops.skip(1), n),
        }
    }
}

impl<'a> Op<'a> {
    /// An equal directive: text and color directives share the borrowed
    /// data, a font directive gets equal metrics.
    pub fn working_copy(&self) -> (r: Op<'a>)
        ensures
            r@ == self@,
    {
        match self {
            Op::Text(b) => Op::Text(b),
            Op::Color(c) => Op::Color(*c),
            Op::Font(f) => Op::Font(f.working_copy()),
        }
    }

    /// Drop the first `skip_bytes` bytes of the cumulative text content of
    /// `ops`, passing non-text directives through unchanged. Used for
    /// multi-page rendering of overflowed content.
    pub fn skip_n_text_bytes(ops: &Vec<Op<'a>>, skip_bytes: usize) -> (r: Vec<Op<'a>>)
        ensures
            ops_view(r@) == skip_ops(ops_view(ops@), skip_bytes as int),
    {
        let mut out: Vec<Op<'a>> = Vec::new();
        let mut rem: usize = skip_bytes;
        let mut i: usize = 0;
        proof {
            assert(ops_view(ops@.skip(0)) =~= ops_view(ops@));
            assert(ops_view(out@) + skip_ops(ops_view(ops@), skip_bytes as int)
                =~= skip_ops(ops_view(ops@), skip_bytes as int));
        }

        while i < ops.len()
            invariant
                0 <= i <= ops@.len(),
                skip_ops(ops_view(ops@), skip_bytes as int) == ops_view(out@) + skip_ops(
                    ops_view(ops@.skip(i as int)), rem as int),
            decreases ops@.len() - i,
        {
            let ghost pre = ops_view(ops@.skip(i as int));
            let ghost out0 = out@;
            proof {
                assert(ops_view(ops@.skip(i as int)).skip(1)
                    =~= ops_view(ops@.skip(i + 1 as int)));
                assert(pre[0] == ops@[i as int]@);
            }
            let op = &ops[i];
            match op {
                Op::Text(t) => {
                    if rem > 0 {
                        if t.len() > rem {
                            out.push(Op::Text(&t[rem..t.len()]));
                            rem = 0;
                        } else {
                            rem = rem - t.len();
                        }
                    } else {
                        out.push(Op::Text(t));
                    }
                },
                Op::Color(c) => {
                    out.push(Op::Color(*c));
                },
                Op::Font(f) => {
                    out.push(Op::Font(f.working_copy()));
                },
            }
            proof {
                assert(ops_view(out@) =~= ops_view(out0) + ops_view(out@.skip(out0.len() as int)));
            }
            i = i + 1;
        }
        proof {
            assert(ops_view(ops@.skip(i as int)) =~= Seq::<OpM>::empty());
            assert(ops_view(out@) + skip_ops(Seq::<OpM>::empty(), rem as int) =~= ops_view(out@));
        }
        out
    }
}

} // verus!
