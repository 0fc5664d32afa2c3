//! Dice-notation expressions: parsing, canonical rendering, and evaluation
//! by simulated die rolls.

pub mod die;
pub mod digits;
pub mod eval;
pub mod expr;

use vstd::prelude::*;
use vstd::string::StringExecFns;
use crate::digits::dec_string;
use crate::eval::total_spec;
use crate::expr::{DiceExpr, DropRule, ParseOutcome, parse_spec, render_counted, push_tail};

verus! {

/// The error of the older interface: any rejected dice string is reported
/// whole, whatever rule it broke.
#[derive(Debug)]
pub struct DiceExprError {
    expr: String,
}

impl DiceExprError {
    /// The rejected text.
    pub closed spec fn spec_text(&self) -> Seq<char> {
        self.expr@
    }

    /// The human-readable description of the error.
    pub fn message(&self) -> (r: String)
        ensures
            r@ == "Invalid dice expression \""@ + self.spec_text() + "\""@,
    {
        proof {
            reveal_strlit("Invalid dice expression \"");
            reveal_strlit("\"");
        }
        let mut r = "Invalid dice expression \"".to_owned();
        r.append(self.expr.as_str());
        r.append("\"");
        r
    }
}

/// A dice-notation expression under the older interface: the same grammar
/// and evaluation as `expr::DiceExpr`, with the single error kind above and
/// a rendering that always writes the count.
#[derive(Clone, Copy, Debug, PartialEq, Eq, Structural)]
pub struct Dice {
    /// How many dice are rolled.
    pub count: u16,
    /// How many sides each die has.
    pub sides: u16,
    /// The flat amount added to the sum of the rolls.
    pub modifier: i16,
    /// Which single roll, if any, is left out of the sum.
    pub drop: Option<DropRule>,
}

impl Dice {
    /// The same value as the canonical expression type.
    pub open spec fn as_expr(&self) -> DiceExpr {
        DiceExpr { count: self.count, sides: self.sides, modifier: self.modifier, drop: self.drop }
    }

    /// Parses a dice-notation string; any failure collapses to one error
    /// carrying the whole text.
    pub fn new(expr: &str) -> (r: Result<Dice, DiceExprError>)
        ensures
            match r {
                Ok(d) => parse_spec(expr@) == (ParseOutcome::Fields {
                    count: d.count,
                    sides: d.sides,
                    modifier: d.modifier,
                    drop: d.drop,
                }) && d.as_expr().wf(),
                Err(e) => !(parse_spec(expr@) is Fields) && e.spec_text() == expr@,
            },
    {
        match DiceExpr::try_from(expr) {
            Ok(e) => Ok(
                Dice { count: e.count, sides: e.sides, modifier: e.modifier, drop: e.drop },
            ),
            Err(_) => Err(DiceExprError { expr: expr.to_owned() }),
        }
    }

    /// The expression's text, with the count always written.
    pub fn expr(&self) -> (r: String)
        ensures
            r@ == render_counted(self.count, self.sides, self.modifier, self.drop),
    {
        let mut r = String::new();
        let cs = dec_string(self.count);
        r.append(cs.as_str());
        push_tail(&mut r, self.sides, self.modifier, self.drop);
        assert(r@ =~= render_counted(self.count, self.sides, self.modifier, self.drop));
        r
    }

    /// Rolls the dice: the total and the individual draws in order.
    pub fn roll(&self) -> (res: (u16, Vec<u16>))
        requires
            self.as_expr().wf(),
            self.as_expr().roll_fits(),
        ensures
            res.1@.len() == self.count as int,
            forall|i: int|
                0 <= i < res.1@.len() ==> 1 <= #[trigger] res.1@[i] && res.1@[i] <= self.sides,
            res.0 as int == total_spec(res.1@, self.modifier as int, self.drop),
    {
        let e = DiceExpr {
            count: self.count,
            sides: self.sides,
            modifier: self.modifier,
            drop: self.drop,
        };
        e.roll()
    }
}

} // verus!
