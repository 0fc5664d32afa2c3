//! Dice-notation expressions: the grammar, its validation rules, canonical
//! rendering, and evaluation by simulated rolls.
//!
//! The grammar is a single term: an optional die count (default 1), the
//! letter 'd', a side count, an optional signed modifier, and an optional
//! drop suffix, a hyphen followed by one letter (h or l, either case).

use vstd::prelude::*;
use vstd::string::StrSliceExecFns;
use vstd::string::StringExecFns;
use crate::digits::{is_digit, digits_val, digits_end, dec_digits};
use crate::digits::{is_digit_at, scan_digits, parse_digits_bounded, dec_string};
use crate::die::{Die, fresh_rng};
use crate::eval::{total_spec, tally, lemma_sum_bounds, lemma_extremes};

verus! {

/// Whether a drop rule leaves out the highest roll or the lowest; an
/// expression without a drop suffix carries no rule at all.
#[derive(Clone, Copy, Debug, PartialEq, Eq, Structural)]
pub enum DropRule {
    High,
    Low,
}

/// An ASCII letter.
pub open spec fn is_letter(c: char) -> bool {
    (65 <= c as int && c as int <= 90) || (97 <= c as int && c as int <= 122)
}

/// The code of the ASCII lower-case counterpart of c: A through Z map down,
/// every other character is unchanged.
pub open spec fn lower_code(c: char) -> int {
    if 65 <= c as int && c as int <= 90 {
        c as int + 32
    } else {
        c as int
    }
}

/// The outcome of matching a string against the dice grammar: the captured
/// fields, or which rule the string breaks.
pub enum ParseOutcome {
    /// The string conforms; these are its fields, defaults filled in.
    Fields { count: u16, sides: u16, modifier: i16, drop: Option<DropRule> },
    /// The string does not match the grammar shape, or breaks a structural
    /// rule: zero sides, a modifier out of range, a drop on a single die.
    BadExpr,
    /// A digit group does not fit its numeric field.
    BadInt { group: Seq<char> },
    /// The drop suffix names a letter other than h or l.
    BadDrop { letter: char },
}

/// Matches s against the grammar shape and hands the group spans on for
/// validation.
pub open spec fn parse_spec(s: Seq<char>) -> ParseOutcome {
    let ce = digits_end(s, 0);
    if ce == s.len() || s[ce] != 'd' {
        ParseOutcome::BadExpr
    } else {
        let ss = ce + 1;
        let se = digits_end(s, ss);
        if se == ss {
            ParseOutcome::BadExpr
        } else {
            let has_mod = se < s.len() && (s[se] == '+' || s[se] == '-') && se + 1 < s.len()
                && is_digit(s[se + 1]);
            let me = if has_mod {
                digits_end(s, se + 1)
            } else {
                se
            };
            let has_drop = me + 2 == s.len() && s[me] == '-' && is_letter(s[me + 1]);
            if !(me == s.len() || has_drop) {
                ParseOutcome::BadExpr
            } else {
                parse_groups(s, ce, se, has_mod, me, has_drop)
            }
        }
    }
}

/// Validates the captured groups in the order the rules are checked: count,
/// sides, modifier and its range, then the drop suffix.
pub open spec fn parse_groups(
    s: Seq<char>,
    ce: int,
    se: int,
    has_mod: bool,
    me: int,
    has_drop: bool,
) -> ParseOutcome {
    let cnum = digits_val(s.subrange(0, ce));
    if ce > 0 && cnum > 0xFFFF {
        ParseOutcome::BadInt { group: s.subrange(0, ce) }
    } else {
        let count: u16 = if ce == 0 {
            1u16
        } else {
            cnum as u16
        };
        let snum = digits_val(s.subrange(ce + 1, se));
        if snum > 0xFFFF {
            ParseOutcome::BadInt { group: s.subrange(ce + 1, se) }
        } else if snum == 0 {
            ParseOutcome::BadExpr
        } else {
            let sides: u16 = snum as u16;
            let neg = has_mod && s[se] == '-';
            let mnum = if has_mod {
                digits_val(s.subrange(se + 1, me))
            } else {
                0
            };
            if has_mod && (if neg {
                mnum > 32768
            } else {
                mnum > 32767
            }) {
                ParseOutcome::BadInt { group: s.subrange(se, me) }
            } else {
                let modifier: i16 = if !has_mod {
                    0i16
                } else if neg {
                    (-mnum) as i16
                } else {
                    mnum as i16
                };
                if has_mod && !((-(modifier as int)) < count as int * sides as int) {
                    ParseOutcome::BadExpr
                } else if has_drop {
                    if count < 2 {
                        ParseOutcome::BadExpr
                    } else {
                        let lc = lower_code(s[me + 1]);
                        if lc == 104 {
                            ParseOutcome::Fields { count, sides, modifier, drop: Some(DropRule::High) }
                        } else if lc == 108 {
                            ParseOutcome::Fields { count, sides, modifier, drop: Some(DropRule::Low) }
                        } else {
                            ParseOutcome::BadDrop { letter: s[me + 1] }
                        }
                    }
                } else {
                    ParseOutcome::Fields { count, sides, modifier, drop: Option::<DropRule>::None }
                }
            }
        }
    }
}

/// A parsed dice-notation expression.
#[derive(Clone, Copy, Debug, PartialEq, Eq, Structural)]
pub struct DiceExpr {
    /// How many dice are rolled.
    pub count: u16,
    /// How many sides each die has.
    pub sides: u16,
    /// The flat amount added to the sum of the rolls.
    pub modifier: i16,
    /// Which single roll, if any, is left out of the sum.
    pub drop: Option<DropRule>,
}

impl DiceExpr {
    /// The invariants parsing establishes: at least one side, a drop rule
    /// only on several dice, and a modifier that cannot push the largest
    /// possible unmodified sum to zero or below.
    pub open spec fn wf(&self) -> bool {
        &&& self.sides >= 1
        &&& self.drop is Some ==> self.count >= 2
        &&& self.modifier != 0 ==> -(self.modifier as int) < self.count as int
            * self.sides as int
    }
}

/// Why a dice-notation string was rejected.
#[derive(Debug)]
pub enum DiceExprError {
    /// The text (stored whole) does not match the grammar or breaks a
    /// structural rule.
    Expr(String),
    /// A digit group (stored here) does not fit its numeric field.
    ParseIntError(String),
    /// The drop suffix names a letter (stored lower-cased) other than h or l.
    Drop(String),
}

impl PartialEq for DiceExprError {
    fn eq(&self, other: &Self) -> bool {
        match (self, other) {
            (DiceExprError::Expr(a), DiceExprError::Expr(b)) => *a == *b,
            (DiceExprError::ParseIntError(a), DiceExprError::ParseIntError(b)) => *a == *b,
            (DiceExprError::Drop(a), DiceExprError::Drop(b)) => *a == *b,
            _ => false,
        }
    }
}

impl vstd::std_specs::cmp::PartialEqSpecImpl for DiceExprError {
    open spec fn obeys_eq_spec() -> bool {
        true
    }

    open spec fn eq_spec(&self, other: &Self) -> bool {
        match (self, other) {
            (DiceExprError::Expr(a), DiceExprError::Expr(b)) => a@ == b@,
            (DiceExprError::ParseIntError(a), DiceExprError::ParseIntError(b)) => a@ == b@,
            (DiceExprError::Drop(a), DiceExprError::Drop(b)) => a@ == b@,
            _ => false,
        }
    }
}

impl DiceExprError {
    /// The text of the error, as the command line prints it. An integer
    /// error names the cause of the failed conversion: a digit group here
    /// can only overflow, toward minus infinity when it carries a leading
    /// minus sign and toward plus infinity otherwise.
    pub open spec fn message_spec(&self) -> Seq<char> {
        match self {
            DiceExprError::Expr(s) => "Invalid dice expression \""@ + s@ + "\""@,
            DiceExprError::ParseIntError(s) => "Integer parsing error: "@ + (if s@.len() > 0
                && s@[0] == '-' {
                "number too small to fit in target type"@
            } else {
                "number too large to fit in target type"@
            }),
            DiceExprError::Drop(s) => "Invalid drop modifier \""@ + s@ + "\""@,
        }
    }

    /// The human-readable description of the error.
    pub fn message(&self) -> (r: String)
        ensures
            r@ == self.message_spec(),
    {
        proof {
            reveal_strlit("Invalid dice expression \"");
            reveal_strlit("Integer parsing error: ");
            reveal_strlit("number too small to fit in target type");
            reveal_strlit("number too large to fit in target type");
            reveal_strlit("Invalid drop modifier \"");
            reveal_strlit("\"");
        }
        match self {
            DiceExprError::Expr(s) => {
                let mut r = "Invalid dice expression \"".to_owned();
                r.append(s.as_str());
                r.append("\"");
                r
            },
            DiceExprError::ParseIntError(s) => {
                let mut r = "Integer parsing error: ".to_owned();
                let negative = if s.as_str().unicode_len() > 0 {
                    s.as_str().get_char(0) == '-'
                } else {
                    false
                };
                if negative {
                    r.append("number too small to fit in target type");
                } else {
                    r.append("number too large to fit in target type");
                }
                r
            },
            DiceExprError::Drop(s) => {
                let mut r = "Invalid drop modifier \"".to_owned();
                r.append(s.as_str());
                r.append("\"");
                r
            },
        }
    }
}

/// The whole input did not conform: an expression error carrying it.
fn expr_error(s: &str) -> (e: DiceExprError)
    ensures
        e matches DiceExprError::Expr(t) && t@ == s@,
{
    DiceExprError::Expr(s.to_owned())
}

/// A digit group in s[start..end) did not fit: an integer error carrying it.
fn int_error(s: &str, start: usize, end: usize) -> (e: DiceExprError)
    requires
        start <= end <= s@.len(),
    ensures
        e matches DiceExprError::ParseIntError(t) && t@ == s@.subrange(
            start as int,
            end as int,
        ),
{
    DiceExprError::ParseIntError(s.substring_char(start, end).to_owned())
}

/// Relies on str::to_ascii_lowercase: ASCII upper-case letters map to lower
/// case and every other character is unchanged, one for one.
#[verifier::external_body]
fn ascii_lower(s: &str) -> (r: String)
    ensures
        r@.len() == s@.len(),
        forall|i: int| 0 <= i < s@.len() ==> #[trigger] r@[i] as int == lower_code(s@[i]),
{
    s.to_ascii_lowercase()
}

/// The letter at index i is no drop rule: an error carrying it lower-cased.
fn drop_error(s: &str, i: usize) -> (e: DiceExprError)
    requires
        i < usize::MAX,
        i < s@.len(),
    ensures
        e matches DiceExprError::Drop(t) && t@.len() == 1 && t@[0] as int == lower_code(
            s@[i as int],
        ),
{
    let letter = s.substring_char(i, i + 1);
    DiceExprError::Drop(ascii_lower(letter))
}

impl DiceExpr {
    /// Parses a dice-notation string. The result follows `parse_spec` on the
    /// characters of s exactly: the fields on a conforming string, and the
    /// error that names the first broken rule otherwise.
    pub fn try_from(s: &str) -> (r: Result<DiceExpr, DiceExprError>)
        ensures
            match r {
                Ok(e) => parse_spec(s@) == (ParseOutcome::Fields {
                    count: e.count,
                    sides: e.sides,
                    modifier: e.modifier,
                    drop: e.drop,
                }) && e.wf(),
                Err(DiceExprError::Expr(t)) => parse_spec(s@) is BadExpr && t@ == s@,
                Err(DiceExprError::ParseIntError(t)) => parse_spec(s@) matches ParseOutcome::BadInt
                    { group } && t@ == group,
                Err(DiceExprError::Drop(t)) => parse_spec(s@) matches ParseOutcome::BadDrop {
                    letter } && t@.len() == 1 && t@[0] as int == lower_code(letter),
            },
    {
        let n = s.unicode_len();
        let ce = scan_digits(s, n, 0);
        if ce == n {
            return Err(expr_error(s));
        }
        if s.get_char(ce) != 'd' {
            return Err(expr_error(s));
        }
        let ss = ce + 1;
        let se = scan_digits(s, n, ss);
        if se == ss {
            return Err(expr_error(s));
        }
        let has_mod = if se < n {
            let c = s.get_char(se);
            if (c == '+' || c == '-') && se + 1 < n {
                is_digit_at(s, se + 1)
            } else {
                false
            }
        } else {
            false
        };
        let me = if has_mod {
            scan_digits(s, n, se + 1)
        } else {
            se
        };
        let has_drop = if n >= 2 && me == n - 2 {
            let c = s.get_char(me);
            if c == '-' {
                let l = s.get_char(me + 1);
                (65 <= l as u32 && l as u32 <= 90) || (97 <= l as u32 && l as u32 <= 122)
            } else {
                false
            }
        } else {
            false
        };
        if !(me == n || has_drop) {
            return Err(expr_error(s));
        }
        let count: u16 = if ce == 0 {
            1
        } else {
            match parse_digits_bounded(s, 0, ce, 0xFFFF) {
                Some(v) => v as u16,
                Option::<u32>::None => {
                    return Err(int_error(s, 0, ce));
                },
            }
        };
        let sides: u16 = match parse_digits_bounded(s, ss, se, 0xFFFF) {
            Some(v) => v as u16,
            Option::<u32>::None => {
                return Err(int_error(s, ss, se));
            },
        };
        if sides == 0 {
            return Err(expr_error(s));
        }
        let mut modifier: i16 = 0;
        if has_mod {
            let neg = s.get_char(se) == '-';
            let bound: u32 = if neg {
                32768
            } else {
                32767
            };
            match parse_digits_bounded(s, se + 1, me, bound) {
                Some(v) => {
                    modifier = if neg {
                        (-(v as i32)) as i16
                    } else {
                        v as i16
                    };
                },
                Option::<u32>::None => {
                    return Err(int_error(s, se, me));
                },
            }
            proof {
                assert(count as int * sides as int <= 0xFFFF * 0xFFFF) by (nonlinear_arith)
                    requires count <= 0xFFFF && sides <= 0xFFFF;
            }
            if !((-(modifier as i64)) < count as i64 * sides as i64) {
                return Err(expr_error(s));
            }
        }
        let drop: Option<DropRule> = if has_drop {
            if count < 2 {
                return Err(expr_error(s));
            }
            let c = s.get_char(me + 1);
            if c == 'h' || c == 'H' {
                Some(DropRule::High)
            } else if c == 'l' || c == 'L' {
                Some(DropRule::Low)
            } else {
                return Err(drop_error(s, me + 1));
            }
        } else {
            Option::<DropRule>::None
        };
        Ok(DiceExpr { count, sides, modifier, drop })
    }
}

/// The sides, modifier and drop-suffix text shared by every rendering.
pub open spec fn render_tail(sides: u16, modifier: i16, drop: Option<DropRule>) -> Seq<char> {
    seq!['d'] + dec_digits(sides as nat) + (if modifier > 0 {
        seq!['+'] + dec_digits(modifier as nat)
    } else if modifier < 0 {
        seq!['-'] + dec_digits((-(modifier as int)) as nat)
    } else {
        Seq::<char>::empty()
    }) + (match drop {
        Some(DropRule::High) => seq!['-', 'H'],
        Some(DropRule::Low) => seq!['-', 'L'],
        Option::<DropRule>::None => Seq::<char>::empty(),
    })
}

/// The canonical text of an expression: the count is left out when it is 1.
pub open spec fn render_canonical(e: DiceExpr) -> Seq<char> {
    (if e.count == 1 {
        Seq::<char>::empty()
    } else {
        dec_digits(e.count as nat)
    }) + render_tail(e.sides, e.modifier, e.drop)
}

/// The text with the count always present, as the older interface writes it.
pub open spec fn render_counted(
    count: u16,
    sides: u16,
    modifier: i16,
    drop: Option<DropRule>,
) -> Seq<char> {
    dec_digits(count as nat) + render_tail(sides, modifier, drop)
}

/// Law: rendering a well-formed expression canonically and parsing the text
/// back yields exactly the same fields.
pub proof fn lemma_parse_render_roundtrip(e: DiceExpr)
    requires
        e.wf(),
    ensures
        parse_spec(render_canonical(e)) == (ParseOutcome::Fields {
            count: e.count,
            sides: e.sides,
            modifier: e.modifier,
            drop: e.drop,
        }),
{
    if e.count == 1 {
        lemma_parse_of_prefixed_tail(Seq::<char>::empty(), e.count, e.sides, e.modifier, e.drop);
    } else {
        crate::digits::lemma_dec_digits(e.count as nat);
        lemma_parse_of_prefixed_tail(
            dec_digits(e.count as nat),
            e.count,
            e.sides,
            e.modifier,
            e.drop,
        );
    }
}

/// Law: the rendering that always writes the count round-trips as well.
pub proof fn lemma_counted_render_roundtrip(
    count: u16,
    sides: u16,
    modifier: i16,
    drop: Option<DropRule>,
)
    requires
        (DiceExpr { count, sides, modifier, drop }).wf(),
    ensures
        parse_spec(render_counted(count, sides, modifier, drop)) == (ParseOutcome::Fields {
            count,
            sides,
            modifier,
            drop,
        }),
{
    crate::digits::lemma_dec_digits(count as nat);
    lemma_parse_of_prefixed_tail(dec_digits(count as nat), count, sides, modifier, drop);
}

/// Law: the canonical rendering of a one-die expression omits the count
/// prefix entirely, and the sides always follow the leading 'd'.
pub proof fn lemma_canonical_one_die(e: DiceExpr)
    requires
        e.count == 1,
    ensures
        render_canonical(e) == render_tail(e.sides, e.modifier, e.drop),
        render_canonical(e)[0] == 'd',
        render_canonical(e).subrange(1, 1 + dec_digits(e.sides as nat).len() as int)
            == dec_digits(e.sides as nat),
{
    crate::digits::lemma_dec_digits(e.sides as nat);
    assert(render_canonical(e) =~= render_tail(e.sides, e.modifier, e.drop));
    assert(render_canonical(e).subrange(1, 1 + dec_digits(e.sides as nat).len() as int)
        =~= dec_digits(e.sides as nat));
}

/// Parsing any rendered form: the digits of the count (or nothing, when the
/// count is 1) followed by the common tail recovers the fields.
#[verifier::rlimit(60)]
proof fn lemma_parse_of_prefixed_tail(
    prefix: Seq<char>,
    count: u16,
    sides: u16,
    modifier: i16,
    drop: Option<DropRule>,
)
    requires
        sides >= 1,
        drop is Some ==> count >= 2,
        modifier != 0 ==> -(modifier as int) < count as int * sides as int,
        prefix.len() == 0 ==> count == 1,
        prefix.len() > 0 ==> (forall|i: int| 0 <= i < prefix.len() ==> is_digit(#[trigger] prefix[i]))
            && digits_val(prefix) == count,
    ensures
        parse_spec(prefix + render_tail(sides, modifier, drop)) == (ParseOutcome::Fields {
            count,
            sides,
            modifier,
            drop,
        }),
{
    let sd = dec_digits(sides as nat);
    crate::digits::lemma_dec_digits(sides as nat);
    let mag: nat = (if modifier >= 0 {
        modifier as int
    } else {
        -(modifier as int)
    }) as nat;
    crate::digits::lemma_dec_digits(mag);
    let md: Seq<char> = if modifier > 0 {
        seq!['+'] + dec_digits(mag)
    } else if modifier < 0 {
        seq!['-'] + dec_digits(mag)
    } else {
        Seq::<char>::empty()
    };
    let dd: Seq<char> = match drop {
        Some(DropRule::High) => seq!['-', 'H'],
        Some(DropRule::Low) => seq!['-', 'L'],
        Option::<DropRule>::None => Seq::<char>::empty(),
    };
    let tail = render_tail(sides, modifier, drop);
    assert(tail =~= seq!['d'] + sd + md + dd);
    let s = prefix + tail;
    let ce = prefix.len() as int;
    let ss = ce + 1;
    let se = ss + sd.len() as int;
    let me = if modifier != 0 {
        se + 1 + dec_digits(mag).len() as int
    } else {
        se
    };
    // where each region of the text sits
    assert(s.len() == ce + 1 + sd.len() + md.len() + dd.len());
    assert(s[ce] == 'd');
    assert(s.subrange(0, ce) =~= prefix);
    assert(s.subrange(ss, se) =~= sd);
    if modifier != 0 {
        assert(s[se] == (if modifier < 0 { '-' } else { '+' }));
        assert(s.subrange(se + 1, me) =~= dec_digits(mag));
        assert(s[se + 1] == dec_digits(mag)[0]);
    }
    if drop is Some {
        assert(s[me] == '-');
        assert(s[me + 1] == (if drop == Some(DropRule::High) { 'H' } else { 'L' }));
        assert(s.len() == me + 2);
    } else {
        assert(s.len() == me);
    }
    // the scanner stops exactly at each region's end
    crate::digits::lemma_digits_end_is(s, 0, ce);
    crate::digits::lemma_digits_end_is(s, ss, se);
    if modifier != 0 {
        crate::digits::lemma_digits_end_is(s, se + 1, me);
    }
    // the grammar shape is recognised as laid out
    assert(digits_end(s, 0) == ce);
    assert(digits_end(s, ss) == se);
    let has_mod = se < s.len() && (s[se] == '+' || s[se] == '-') && se + 1 < s.len() && is_digit(
        s[se + 1],
    );
    assert(has_mod == (modifier != 0));
    let has_drop = me + 2 == s.len() && s[me] == '-' && is_letter(s[me + 1]);
    assert(has_drop == (drop is Some));
    // the captured groups carry the rendered values back
    assert(digits_val(s.subrange(0, ce)) == digits_val(prefix));
    assert(digits_val(s.subrange(ss, se)) == sides);
    if modifier != 0 {
        assert(digits_val(s.subrange(se + 1, me)) == mag);
        if modifier < 0 {
            assert((-(mag as int)) as i16 == modifier);
        } else {
            assert((mag as int) as i16 == modifier);
        }
    }
    if drop is Some {
        assert(lower_code(s[me + 1]) == (if drop == Some(DropRule::High) {
            104int
        } else {
            108int
        }));
    }
    assert(parse_spec(s) == (ParseOutcome::Fields { count, sides, modifier, drop }));
}

/// Appends the sides, modifier and drop-suffix text to r.
pub(crate) fn push_tail(r: &mut String, sides: u16, modifier: i16, drop: Option<DropRule>)
    ensures
        final(r)@ == old(r)@ + render_tail(sides, modifier, drop),
{
    proof {
        reveal_strlit("d");
        reveal_strlit("+");
        reveal_strlit("-");
        reveal_strlit("-H");
        reveal_strlit("-L");
    }
    r.append("d");
    let ds = dec_string(sides);
    r.append(ds.as_str());
    if modifier > 0 {
        r.append("+");
        let ms = dec_string(modifier as u16);
        r.append(ms.as_str());
    } else if modifier < 0 {
        r.append("-");
        let mag = -(modifier as i32);
        let ms = dec_string(mag as u16);
        r.append(ms.as_str());
    }
    match drop {
        Some(DropRule::High) => r.append("-H"),
        Some(DropRule::Low) => r.append("-L"),
        Option::<DropRule>::None => {},
    }
    assert(r@ =~= old(r)@ + render_tail(sides, modifier, drop));
}

impl DiceExpr {
    /// The canonical text of the expression: count (omitted when it is 1),
    /// sides, signed modifier, drop suffix.
    pub fn to_text(&self) -> (r: String)
        ensures
            r@ == render_canonical(*self),
    {
        let mut r = String::new();
        if self.count != 1 {
            let cs = dec_string(self.count);
            r.append(cs.as_str());
        }
        push_tail(&mut r, self.sides, self.modifier, self.drop);
        assert(r@ =~= render_canonical(*self));
        r
    }

    /// Whether every total the roll could produce fits the result type.
    pub open spec fn roll_fits(&self) -> bool {
        self.count as int * self.sides as int + (if self.modifier > 0 {
            self.modifier as int
        } else {
            0
        }) <= 0xFFFF
    }

    /// Rolls the expression: count draws from a fresh die, then the drop
    /// rule and the modifier applied to their sum, with the floor at zero.
    /// Returns the total and every individual draw in order, the dropped
    /// one included.
    pub fn roll(&self) -> (res: (u16, Vec<u16>))
        requires
            self.wf(),
            self.roll_fits(),
        ensures
            res.1@.len() == self.count as int,
            forall|i: int|
                0 <= i < res.1@.len() ==> 1 <= #[trigger] res.1@[i] && res.1@[i] <= self.sides,
            res.0 as int == total_spec(res.1@, self.modifier as int, self.drop),
    {
        let die = Die::new(self.sides);
        let mut rng = fresh_rng();
        let mut rolls: Vec<u16> = Vec::new();
        let mut i: u16 = 0;
        while i < self.count
            invariant
                i <= self.count,
                rolls@.len() == i as int,
                die.spec_sides() == self.sides,
                self.sides >= 1,
                forall|j: int|
                    0 <= j < rolls@.len() ==> 1 <= #[trigger] rolls@[j] && rolls@[j] <= self.sides,
            decreases self.count - i,
        {
            let v = die.roll(&mut rng);
            rolls.push(v);
            i = i + 1;
        }
        proof {
            lemma_sum_bounds(rolls@, self.sides as int);
            if self.drop is Some {
                lemma_extremes(rolls@);
            }
            assert(rolls@.len() * self.sides as int == self.count as int * self.sides as int);
            assert(total_spec(rolls@, self.modifier as int, self.drop) <= 0xFFFF);
        }
        let t = tally(&rolls, self.modifier, self.drop);
        (t, rolls)
    }
}

} // verus!
