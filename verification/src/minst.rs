//! The five primitive machine instructions and their two codecs: one from
//! textual symbolic-expression form, one to and from a packed 32-bit word.

use vstd::prelude::*;

use crate::sym::{SymItem, SymListItem};

verus! {

/// A primitive instruction of the macro-expansion machine.
#[derive(Debug, Clone, Copy, PartialEq, Eq)]
pub enum MacroInstruction {
    /// Register the definition sitting on top of the active frame.
    Define,
    /// Reserved; executing it is a fault and its textual form is rejected.
    Expand,
    /// Read an element, or a whole frame, from the call stack.
    Index { frame: i32, narg: Option<i32> },
    /// Group the active frame, or a sub-range of it, into one list element.
    Context { range: Option<(i32, i32)> },
    /// Leave the active frame with a selected value.
    Return { range: Option<ReturnInstData> },
}

/// What a `Return` instruction selects: one slot, or a contiguous range.
#[derive(Debug, Clone, Copy, PartialEq, Eq)]
pub enum ReturnInstData {
    Arg(i32),
    Range(i32, i32),
}

/// Why converting between instruction representations failed.
#[derive(Debug, Clone, PartialEq, Eq)]
pub enum CodecError {
    /// A binary word's opcode field holds no instruction.
    UnknownOpcode(u32),
    /// The number of arguments fits no shape the opcode accepts.
    WrongArity,
    /// A textual argument is not a decimal signed integer.
    NonIntegerArgument,
    /// A range's two endpoints are equal.
    DegenerateRange(i32, i32),
    /// An argument does not fit the 14-bit signed encoding field.
    ArgumentOutOfEncodingRange(i32),
}

/// Whether `c` is a decimal digit.
pub open spec fn is_digit(c: char) -> bool {
    48 <= c as int <= 57
}

/// The numeric value of a decimal digit.
pub open spec fn digit_val(c: char) -> int {
    c as int - 48
}

/// Every character of `s` is a decimal digit.
pub open spec fn all_digits(s: Seq<char>) -> bool {
    forall|i: int| 0 <= i < s.len() ==> is_digit(#[trigger] s[i])
}

/// The value of a most-significant-first digit run.
pub open spec fn dec_val(s: Seq<char>) -> int
    decreases s.len(),
{
    if s.len() == 0 {
        0
    } else {
        dec_val(s.drop_last()) * 10 + digit_val(s.last())
    }
}

/// The integer a token denotes: an optional sign followed by at least one
/// digit; anything else denotes nothing.
pub open spec fn spec_parse_int(s: Seq<char>) -> Option<int> {
    if s.len() > 0 && (s[0] == '-' || s[0] == '+') {
        let digits = s.drop_first();
        if digits.len() > 0 && all_digits(digits) {
            if s[0] == '-' {
                Some(-dec_val(digits))
            } else {
                Some(dec_val(digits))
            }
        } else {
            None
        }
    } else if s.len() > 0 && all_digits(s) {
        Some(dec_val(s))
    } else {
        None
    }
}

/// The `i32` a token denotes, if it denotes an integer in range.
pub open spec fn spec_parse_i32(s: Seq<char>) -> Option<i32> {
    match spec_parse_int(s) {
        Some(v) => if -0x8000_0000 <= v <= 0x7FFF_FFFF {
            Some(v as i32)
        } else {
            None
        },
        None => None,
    }
}

proof fn lemma_dec_val_nonneg(s: Seq<char>)
    requires
        all_digits(s),
    ensures
        dec_val(s) >= 0,
    decreases s.len(),
{
    if s.len() > 0 {
        assert(all_digits(s.drop_last())) by {
            assert(forall|i: int| 0 <= i < s.len() - 1 ==> s.drop_last()[i] == #[trigger] s[i]);
        }
        lemma_dec_val_nonneg(s.drop_last());
        assert(is_digit(s.last()));
    }
}

/// Read a decimal signed integer from a token, exactly as the textual
/// instruction syntax defines one.
#[verifier::loop_isolation(false)]
pub fn parse_i32(s: &str) -> (r: Option<i32>)
    ensures
        r == spec_parse_i32(s@),
{
    let n = s.unicode_len();
    if n == 0 {
        return None;
    }
    let c0 = s.get_char(0);
    let neg = c0 == '-';
    let signed = neg || c0 == '+';
    let start: usize = if signed {
        1
    } else {
        0
    };
    if start >= n {
        return None;
    }
    let ghost digits = s@.subrange(start as int, n as int);
    proof {
        if signed {
            assert(digits =~= s@.drop_first());
        } else {
            assert(digits =~= s@);
        }
    }
    let mut acc: u64 = 0;
    let mut too_big = false;
    let mut k = start;
    while k < n
        invariant
            start <= k <= n,
            n == s@.len(),
            start < n,
            digits == s@.subrange(start as int, n as int),
            all_digits(s@.subrange(start as int, k as int)),
            !too_big ==> acc as int == dec_val(s@.subrange(start as int, k as int)) && acc
                <= 0x8000_0000,
            too_big ==> dec_val(s@.subrange(start as int, k as int)) > 0x8000_0000,
        decreases n - k,
    {
        let c = s.get_char(k);
        let u = c as u32;
        if u < 48 || u > 57 {
            proof {
                assert(digits[k - start] == c);
                assert(c as int == u as int);
                assert(!is_digit(digits[k - start]));
            }
            return None;
        }
        let d = (u - 48) as u64;
        let ghost pre = s@.subrange(start as int, k as int);
        let ghost post = s@.subrange(start as int, (k + 1) as int);
        proof {
            assert(post.drop_last() =~= pre);
            assert(post.last() == s@[k as int]);
            assert(dec_val(post) == dec_val(pre) * 10 + digit_val(s@[k as int]));
            lemma_dec_val_nonneg(pre);
        }
        if too_big {
        } else {
            let nacc = acc * 10 + d;
            if nacc > 0x8000_0000 {
                too_big = true;
            } else {
                acc = nacc;
            }
        }
        k = k + 1;
    }
    proof {
        assert(s@.subrange(start as int, n as int) == digits);
        if signed {
            assert(digits =~= s@.drop_first());
        }
        lemma_dec_val_nonneg(digits);
    }
    if too_big {
        return None;
    }
    if neg {
        if acc > 0x8000_0000 {
            None
        } else if acc == 0x8000_0000 {
            Some(i32::MIN)
        } else {
            Some(-(acc as i32))
        }
    } else {
        if acc > 0x7FFF_FFFF {
            None
        } else {
            Some(acc as i32)
        }
    }
}

/// Why decoding an instruction from a parse tree failed.
#[derive(Debug)]
pub enum MinstSymItemError {
    /// The list's head atom carries no leading `.`: not an instruction form.
    NotAnInstruction(SymItem),
    /// The head names no instruction, or the argument shape is invalid.
    InvalidInstr(SymItem),
    /// An argument is missing or is not a decimal signed integer.
    InvalidArgs(SymItem),
}


/// The shape constraints the arity and range rules put on an instruction.
impl MacroInstruction {
    /// No range of an instruction is degenerate: its two endpoints differ.
    pub open spec fn wf(&self) -> bool {
        match self {
            MacroInstruction::Context { range: Some((a, b)) } => a != b,
            MacroInstruction::Return { range: Some(ReturnInstData::Range(a, b)) } => a != b,
            _ => true,
        }
    }

    /// The argument values the instruction carries, in order.
    pub open spec fn args(&self) -> Seq<i32> {
        match *self {
            MacroInstruction::Define => seq![],
            MacroInstruction::Expand => seq![],
            MacroInstruction::Index { frame, narg } => match narg {
                Some(n) => seq![frame, n],
                None => seq![frame],
            },
            MacroInstruction::Context { range } => match range {
                Some((a, b)) => seq![a, b],
                None => seq![],
            },
            MacroInstruction::Return { range } => match range {
                Some(ReturnInstData::Arg(a)) => seq![a],
                Some(ReturnInstData::Range(a, b)) => seq![a, b],
                None => seq![],
            },
        }
    }

    /// The opcode field of the instruction.
    pub open spec fn opcode(&self) -> u32 {
        match *self {
            MacroInstruction::Define => 0,
            MacroInstruction::Expand => 1,
            MacroInstruction::Index { .. } => 2,
            MacroInstruction::Context { .. } => 3,
            MacroInstruction::Return { .. } => 4,
        }
    }

    /// Whether the encoded word carries the arguments flag.
    pub open spec fn carries_args(&self) -> bool {
        self.args().len() > 0
    }

    /// The two argument fields: a single slot of `Return` is carried as an
    /// equal pair, which is how decoding tells it apart from a range.
    pub open spec fn arg_pair(&self) -> (i32, i32) {
        match *self {
            MacroInstruction::Index { frame, narg } => match narg {
                Some(n) => (frame, n),
                None => (frame, 0),
            },
            MacroInstruction::Context { range: Some((a, b)) } => (a, b),
            MacroInstruction::Return { range: Some(ReturnInstData::Arg(a)) } => (a, a),
            MacroInstruction::Return { range: Some(ReturnInstData::Range(a, b)) } => (a, b),
            _ => (0, 0),
        }
    }

    /// The instruction satisfies the range rules and every argument fits the
    /// 14-bit signed encoding field.
    pub open spec fn encodable(&self) -> bool {
        &&& self.wf()
        &&& forall|i: int| 0 <= i < self.args().len() ==> field_fits(#[trigger] self.args()[i])
    }
}

/// An argument fits the 14-bit signed field of the binary encoding.
pub open spec fn field_fits(a: i32) -> bool {
    -8192 <= a <= 8191
}

/// The 14-bit two's-complement image of an argument.
pub open spec fn enc_field(a: i32) -> u32 {
    (a as u32) & 0x3FFF
}

/// The argument a 14-bit field stands for.
pub open spec fn dec_field(f: u32) -> i32 {
    if f >= 0x2000 {
        (f | 0xFFFF_C000) as i32
    } else {
        f as i32
    }
}

/// The packed word of an encodable instruction: bits 0-2 the opcode, bit 31
/// the arguments flag, bits 3-16 and 17-30 the two argument fields.
pub open spec fn spec_encode(inst: MacroInstruction) -> u32 {
    if inst.carries_args() {
        inst.opcode() | 0x8000_0000u32 | (enc_field(inst.arg_pair().0) << 3) | (enc_field(
            inst.arg_pair().1,
        ) << 17)
    } else {
        inst.opcode()
    }
}

/// The instruction a packed word stands for, when it stands for one.
pub open spec fn spec_decode(word: u32) -> Result<MacroInstruction, CodecError> {
    let op = word & 0x7;
    let flag = word & 0x8000_0000 != 0;
    let a0 = dec_field((word >> 3) & 0x3FFF);
    let a1 = dec_field((word >> 17) & 0x3FFF);
    if !flag && (word >> 3) & 0xFFF_FFFF != 0 {
        Err(CodecError::WrongArity)
    } else if op == 0 {
        Ok(MacroInstruction::Define)
    } else if op == 1 {
        Ok(MacroInstruction::Expand)
    } else if op == 2 {
        if flag {
            Ok(MacroInstruction::Index { frame: a0, narg: Some(a1) })
        } else {
            Ok(MacroInstruction::Index { frame: 0, narg: None })
        }
    } else if op == 3 {
        if flag {
            if a0 == a1 {
                Err(CodecError::DegenerateRange(a0, a1))
            } else {
                Ok(MacroInstruction::Context { range: Some((a0, a1)) })
            }
        } else {
            Ok(MacroInstruction::Context { range: None })
        }
    } else if op == 4 {
        if flag {
            if a0 == a1 {
                Ok(MacroInstruction::Return { range: Some(ReturnInstData::Arg(a0)) })
            } else {
                Ok(MacroInstruction::Return { range: Some(ReturnInstData::Range(a0, a1)) })
            }
        } else {
            Ok(MacroInstruction::Return { range: None })
        }
    } else {
        Err(CodecError::UnknownOpcode(op))
    }
}

impl MacroInstruction {
    /// Pack the instruction into its 32-bit word; a degenerate range or an
    /// argument outside the 14-bit signed range is reported instead, the
    /// first offending value named.
    pub fn encode(&self) -> (r: Result<u32, CodecError>)
        ensures
            match r {
                Ok(word) => self.encodable() && word == spec_encode(*self),
                Err(e) => match e {
                    CodecError::DegenerateRange(a, b) => !self.wf() && a == b && self.args()
                        =~= seq![a, b],
                    CodecError::ArgumentOutOfEncodingRange(a) => {
                        &&& self.wf()
                        &&& !field_fits(a)
                        &&& exists|i: int|
                            0 <= i < self.args().len() && self.args()[i] == a && forall|m: int|
                                0 <= m < i ==> field_fits(#[trigger] self.args()[m])
                    },
                    _ => false,
                },
            },
    {
        match self {
            MacroInstruction::Context { range: Some((a, b)) } => {
                if *a == *b {
                    return Err(CodecError::DegenerateRange(*a, *b));
                }
            },
            MacroInstruction::Return { range: Some(ReturnInstData::Range(a, b)) } => {
                if *a == *b {
                    return Err(CodecError::DegenerateRange(*a, *b));
                }
            },
            _ => {},
        }
        let (a0, a1, count) = self.exec_arg_pair();
        if count >= 1 && (a0 < -8192 || a0 > 8191) {
            proof {
                assert(self.args()[0] == a0);
                assert(forall|m: int| 0 <= m < 0 ==> field_fits(#[trigger] self.args()[m]));
            }
            return Err(CodecError::ArgumentOutOfEncodingRange(a0));
        }
        if count >= 2 && (a1 < -8192 || a1 > 8191) {
            proof {
                assert(self.args()[1] == a1);
                assert(forall|m: int| 0 <= m < 1 ==> field_fits(#[trigger] self.args()[m]));
            }
            return Err(CodecError::ArgumentOutOfEncodingRange(a1));
        }
        let op = self.exec_opcode();
        if count == 0 {
            Ok(op)
        } else {
            #[verifier::truncate]
            let f0 = (a0 as u32) & 0x3FFF;
            #[verifier::truncate]
            let f1 = (a1 as u32) & 0x3FFF;
            Ok(op | 0x8000_0000u32 | (f0 << 3u32) | (f1 << 17u32))
        }
    }

    /// The opcode of the instruction.
    pub fn exec_opcode(&self) -> (r: u32)
        ensures
            r == self.opcode(),
    {
        match self {
            MacroInstruction::Define => 0,
            MacroInstruction::Expand => 1,
            MacroInstruction::Index { .. } => 2,
            MacroInstruction::Context { .. } => 3,
            MacroInstruction::Return { .. } => 4,
        }
    }

    /// The two argument fields and how many arguments are genuine.
    fn exec_arg_pair(&self) -> (r: (i32, i32, usize))
        ensures
            (r.0, r.1) == self.arg_pair(),
            r.2 == self.args().len(),
            r.2 >= 1 ==> self.args()[0] == r.0,
            r.2 >= 2 ==> self.args()[1] == r.1,
    {
        match self {
            MacroInstruction::Define => (0, 0, 0),
            MacroInstruction::Expand => (0, 0, 0),
            MacroInstruction::Index { frame, narg } => match narg {
                Some(n) => (*frame, *n, 2),
                None => (*frame, 0, 1),
            },
            MacroInstruction::Context { range } => match range {
                Some((a, b)) => (*a, *b, 2),
                None => (0, 0, 0),
            },
            MacroInstruction::Return { range } => match range {
                Some(ReturnInstData::Arg(a)) => (*a, *a, 1),
                Some(ReturnInstData::Range(a, b)) => (*a, *b, 2),
                None => (0, 0, 0),
            },
        }
    }

    /// Unpack a 32-bit word; a clear flag with non-zero argument bits, or an
    /// opcode above four, is rejected exactly as `spec_decode` says.
    pub fn decode(word: u32) -> (r: Result<MacroInstruction, CodecError>)
        ensures
            r == spec_decode(word),
    {
        let op = word & 0x7;
        let flag = word & 0x8000_0000 != 0;
        let f0 = (word >> 3u32) & 0x3FFF;
        let f1 = (word >> 17u32) & 0x3FFF;
        proof {
            assert((word >> 3u32) & 0x3FFF < 0x4000 && (word >> 17u32) & 0x3FFF < 0x4000)
                by (bit_vector);
        }
        let a0 = dec_field_exec(f0);
        let a1 = dec_field_exec(f1);
        if !flag && (word >> 3u32) & 0xFFF_FFFF != 0 {
            Err(CodecError::WrongArity)
        } else if op == 0 {
            Ok(MacroInstruction::Define)
        } else if op == 1 {
            Ok(MacroInstruction::Expand)
        } else if op == 2 {
            if flag {
                Ok(MacroInstruction::Index { frame: a0, narg: Some(a1) })
            } else {
                Ok(MacroInstruction::Index { frame: 0, narg: None })
            }
        } else if op == 3 {
            if flag {
                if a0 == a1 {
                    Err(CodecError::DegenerateRange(a0, a1))
                } else {
                    Ok(MacroInstruction::Context { range: Some((a0, a1)) })
                }
            } else {
                Ok(MacroInstruction::Context { range: None })
            }
        } else if op == 4 {
            if flag {
                if a0 == a1 {
                    Ok(MacroInstruction::Return { range: Some(ReturnInstData::Arg(a0)) })
                } else {
                    Ok(MacroInstruction::Return { range: Some(ReturnInstData::Range(a0, a1)) })
                }
            } else {
                Ok(MacroInstruction::Return { range: None })
            }
        } else {
            Err(CodecError::UnknownOpcode(op))
        }
    }
}

/// Sign-extend a 14-bit field.
fn dec_field_exec(f: u32) -> (r: i32)
    requires
        f < 0x4000,
    ensures
        r == dec_field(f),
{
    if f >= 0x2000 {
        #[verifier::truncate]
        let r = (f | 0xFFFF_C000) as i32;
        r
    } else {
        f as i32
    }
}

/// A 14-bit signed value survives the field encoding.
proof fn lemma_field_round_trip(a: i32)
    requires
        field_fits(a),
    ensures
        dec_field(enc_field(a)) == a,
        enc_field(a) < 0x4000,
{
    assert((-8192 <= a <= 8191) ==> ((a as u32) & 0x3FFF) < 0x4000 && ({
        let f = (a as u32) & 0x3FFF;
        (if f >= 0x2000 {
            (f | 0xFFFF_C000) as i32
        } else {
            f as i32
        }) == a
    })) by (bit_vector);
}

/// The fields of an encoded word unpack to what was packed.
proof fn lemma_word_fields(op: u32, f0: u32, f1: u32)
    requires
        op < 8,
        f0 < 0x4000,
        f1 < 0x4000,
    ensures
        ({
            let word = op | 0x8000_0000u32 | (f0 << 3) | (f1 << 17);
            &&& word & 0x7 == op
            &&& word & 0x8000_0000 != 0
            &&& (word >> 3) & 0x3FFF == f0
            &&& (word >> 17) & 0x3FFF == f1
        }),
{
    assert((op < 8 && f0 < 0x4000 && f1 < 0x4000) ==> ({
        let word = op | 0x8000_0000u32 | (f0 << 3) | (f1 << 17);
        &&& word & 0x7 == op
        &&& word & 0x8000_0000 != 0
        &&& (word >> 3) & 0x3FFF == f0
        &&& (word >> 17) & 0x3FFF == f1
    })) by (bit_vector);
}

/// A bare opcode word carries no argument bits and a clear flag.
proof fn lemma_bare_word(op: u32)
    requires
        op < 8,
    ensures
        op & 0x7 == op,
        op & 0x8000_0000 == 0,
        (op >> 3) & 0xFFF_FFFF == 0,
{
    assert(op < 8 ==> op & 0x7 == op && op & 0x8000_0000 == 0 && (op >> 3) & 0xFFF_FFFF == 0)
        by (bit_vector);
}

/// Codec round trip: every instruction that the arity and range rules allow
/// decodes from its own encoding unchanged, with one stated exception. An
/// `Index` without a position argument must still raise the arguments flag
/// to carry its frame, so its word is indistinguishable from `Index` with
/// position zero, and decodes as the latter.
pub proof fn lemma_codec_round_trip(inst: MacroInstruction)
    requires
        inst.encodable(),
    ensures
        !(inst matches MacroInstruction::Index { narg: None, .. }) ==> spec_decode(
            spec_encode(inst),
        ) == Ok::<MacroInstruction, CodecError>(inst),
        inst matches MacroInstruction::Index { frame, narg: None } ==> spec_decode(
            spec_encode(inst),
        ) == Ok::<MacroInstruction, CodecError>(
            MacroInstruction::Index { frame, narg: Some(0) },
        ),
{
    if inst.carries_args() {
        let (a0, a1) = inst.arg_pair();
        assert(inst.args()[0] == a0);
        assert(inst.args().len() >= 2 ==> inst.args()[1] == a1);
        if inst matches MacroInstruction::Return { range: Some(ReturnInstData::Arg(_)) } {
            assert(a1 == a0);
        }
        lemma_field_round_trip(a0);
        lemma_field_round_trip(a1);
        lemma_word_fields(inst.opcode(), enc_field(a0), enc_field(a1));
    } else {
        lemma_bare_word(inst.opcode());
    }
}


/// What decoding a parse tree as an instruction yields.
pub ghost enum InstOutcome {
    /// The tree is this instruction's textual form.
    Inst(MacroInstruction),
    /// The tree does not carry the leading-dot instruction marker.
    NotInstruction,
    /// The marker names no opcode, or the argument shape is invalid.
    BadInstr,
    /// An argument is missing or is not a decimal signed integer.
    BadArgs,
}

/// Every member after the head is an atom denoting an `i32`.
pub open spec fn args_all_ints(items: Seq<crate::sym::SymV>) -> bool {
    forall|k: int|
        1 <= k < items.len() ==> ((#[trigger] items[k]) matches crate::sym::SymV::Atom(a)
            && spec_parse_i32(a) is Some)
}

/// The `i32` the `k`-th member denotes.
pub open spec fn arg_i32(items: Seq<crate::sym::SymV>, k: int) -> i32 {
    match items[k] {
        crate::sym::SymV::Atom(a) => match spec_parse_i32(a) {
            Some(v) => v,
            None => 0,
        },
        crate::sym::SymV::List(_) => 0,
    }
}

/// The textual instruction decoding rules: a list whose head atom opens with
/// `.` names an opcode in upper case; its arguments are decimal integers,
/// checked before the name is dispatched; each opcode accepts exactly the
/// arities of the arity table, ranges with equal endpoints are rejected, and
/// `.EXPAND` is always rejected.
pub open spec fn spec_inst_of(v: crate::sym::SymV) -> InstOutcome {
    match v {
        crate::sym::SymV::List(items) => {
            if items.len() == 0 {
                InstOutcome::NotInstruction
            } else {
                match items[0] {
                    crate::sym::SymV::Atom(name) => {
                        if name.len() == 0 || name[0] != '.' {
                            InstOutcome::NotInstruction
                        } else if !args_all_ints(items) {
                            InstOutcome::BadArgs
                        } else {
                            let argc = items.len() - 1;
                            let a0 = arg_i32(items, 1);
                            let a1 = arg_i32(items, 2);
                            if name == ".DEFINE"@ {
                                if argc == 0 {
                                    InstOutcome::Inst(MacroInstruction::Define)
                                } else {
                                    InstOutcome::BadInstr
                                }
                            } else if name == ".EXPAND"@ {
                                InstOutcome::BadInstr
                            } else if name == ".CONTEXT"@ {
                                if argc == 0 {
                                    InstOutcome::Inst(MacroInstruction::Context { range: None })
                                } else if argc == 2 {
                                    if a0 == a1 {
                                        InstOutcome::BadInstr
                                    } else {
                                        InstOutcome::Inst(
                                            MacroInstruction::Context { range: Some((a0, a1)) },
                                        )
                                    }
                                } else {
                                    InstOutcome::BadInstr
                                }
                            } else if name == ".INDEX"@ {
                                if argc == 0 {
                                    InstOutcome::BadArgs
                                } else if argc == 1 {
                                    InstOutcome::Inst(
                                        MacroInstruction::Index { frame: a0, narg: None },
                                    )
                                } else if argc == 2 {
                                    InstOutcome::Inst(
                                        MacroInstruction::Index { frame: a0, narg: Some(a1) },
                                    )
                                } else {
                                    InstOutcome::BadInstr
                                }
                            } else if name == ".RETURN"@ {
                                if argc == 0 {
                                    InstOutcome::Inst(MacroInstruction::Return { range: None })
                                } else if argc == 1 {
                                    InstOutcome::Inst(
                                        MacroInstruction::Return {
                                            range: Some(ReturnInstData::Arg(a0)),
                                        },
                                    )
                                } else if argc == 2 {
                                    if a0 == a1 {
                                        InstOutcome::BadInstr
                                    } else {
                                        InstOutcome::Inst(
                                            MacroInstruction::Return {
                                                range: Some(ReturnInstData::Range(a0, a1)),
                                            },
                                        )
                                    }
                                } else {
                                    InstOutcome::BadInstr
                                }
                            } else {
                                InstOutcome::BadInstr
                            }
                        }
                    },
                    crate::sym::SymV::List(_) => InstOutcome::NotInstruction,
                }
            }
        },
        crate::sym::SymV::Atom(_) => InstOutcome::NotInstruction,
    }
}

/// Whether two strings hold the same characters.
#[verifier::loop_isolation(false)]
pub(crate) fn str_is(s: &str, t: &str) -> (r: bool)
    ensures
        r == (s@ == t@),
{
    let n = s.unicode_len();
    let m = t.unicode_len();
    if n != m {
        proof {
            assert(s@ != t@);
        }
        return false;
    }
    let mut i: usize = 0;
    while i < n
        invariant
            i <= n,
            n == s@.len(),
            n == t@.len(),
            forall|k: int| 0 <= k < i ==> s@[k] == t@[k],
        decreases n - i,
    {
        if s.get_char(i) != t.get_char(i) {
            return false;
        }
        i = i + 1;
    }
    proof {
        assert(s@ =~= t@);
    }
    true
}

impl MacroInstruction {
    /// Decode a parsed list as a textual instruction, exactly as
    /// [`spec_inst_of`] lays the rules out; the error carries a copy of the
    /// offending tree.
    #[verifier::loop_isolation(false)]
    pub fn parse_sym(sym: &SymItem) -> (r: Result<MacroInstruction, MinstSymItemError>)
        requires
            sym.early_wf(),
        ensures
            match r {
                Ok(inst) => spec_inst_of(sym@) == InstOutcome::Inst(inst),
                Err(e) => match e {
                    MinstSymItemError::NotAnInstruction(n) => spec_inst_of(sym@)
                        == InstOutcome::NotInstruction && n@ == sym@,
                    MinstSymItemError::InvalidInstr(n) => spec_inst_of(sym@)
                        == InstOutcome::BadInstr && n@ == sym@,
                    MinstSymItemError::InvalidArgs(n) => spec_inst_of(sym@) == InstOutcome::BadArgs
                        && n@ == sym@,
                },
            },
    {
        let l = match sym {
            SymItem::SymAtom(_) => {
                return Err(MinstSymItemError::NotAnInstruction(sym.duplicate()));
            },
            SymItem::SymList(l) => l,
        };
        let ghost items = crate::sym::early_views(l.items@);
        proof {
            assert(sym@ matches crate::sym::SymV::List(vs) && vs == items);
        }
        let count = l.items.len();
        if count == 0 {
            return Err(MinstSymItemError::NotAnInstruction(sym.duplicate()));
        }
        proof {
            assert(l.items@[0].early_slot_wf());
        }
        let name = match &l.items[0] {
            SymListItem::Full(_) => {
                proof {
                    assert(false);
                }
                return Err(MinstSymItemError::NotAnInstruction(sym.duplicate()));
            },
            SymListItem::Early(head) => match head {
                SymItem::SymList(_) => {
                    return Err(MinstSymItemError::NotAnInstruction(sym.duplicate()));
                },
                SymItem::SymAtom(a) => a.symbol.as_str(),
            },
        };
        proof {
            assert(items[0] == crate::sym::SymV::Atom(name@));
        }
        if name.unicode_len() == 0 || name.get_char(0) != '.' {
            return Err(MinstSymItemError::NotAnInstruction(sym.duplicate()));
        }
        let mut argv: Vec<i32> = Vec::new();
        let mut k: usize = 1;
        while k < count
            invariant
                1 <= k <= count,
                argv@.len() == k - 1,
                forall|m: int|
                    1 <= m < k ==> ((#[trigger] items[m]) matches crate::sym::SymV::Atom(a)
                        && spec_parse_i32(a) == Some(argv@[m - 1])),
            decreases count - k,
        {
            proof {
                assert(l.items@[k as int].early_slot_wf());
            }
            match &l.items[k] {
                SymListItem::Full(_) => {
                    proof {
                        assert(false);
                    }
                    return Err(MinstSymItemError::InvalidArgs(sym.duplicate()));
                },
                SymListItem::Early(arg) => match arg {
                    SymItem::SymList(_) => {
                        proof {
                            assert(!args_all_ints(items));
                        }
                        return Err(MinstSymItemError::InvalidArgs(sym.duplicate()));
                    },
                    SymItem::SymAtom(a) => match parse_i32(a.symbol.as_str()) {
                        Some(v) => {
                            argv.push(v);
                        },
                        None => {
                            proof {
                                assert(items[k as int] matches crate::sym::SymV::Atom(t)
                                    && spec_parse_i32(t) is None);
                                assert(!args_all_ints(items));
                            }
                            return Err(MinstSymItemError::InvalidArgs(sym.duplicate()));
                        },
                    },
                },
            }
            k = k + 1;
        }
        proof {
            assert(args_all_ints(items));
            if argv@.len() >= 1 {
                assert(argv@[0] == arg_i32(items, 1));
            }
            if argv@.len() >= 2 {
                assert(argv@[1] == arg_i32(items, 2));
            }
        }
        let argc = argv.len();
        if str_is(name, ".DEFINE") {
            if argc == 0 {
                Ok(MacroInstruction::Define)
            } else {
                Err(MinstSymItemError::InvalidInstr(sym.duplicate()))
            }
        } else if str_is(name, ".EXPAND") {
            Err(MinstSymItemError::InvalidInstr(sym.duplicate()))
        } else if str_is(name, ".CONTEXT") {
            if argc == 0 {
                Ok(MacroInstruction::Context { range: None })
            } else if argc == 2 {
                if argv[0] == argv[1] {
                    Err(MinstSymItemError::InvalidInstr(sym.duplicate()))
                } else {
                    Ok(MacroInstruction::Context { range: Some((argv[0], argv[1])) })
                }
            } else {
                Err(MinstSymItemError::InvalidInstr(sym.duplicate()))
            }
        } else if str_is(name, ".INDEX") {
            if argc == 0 {
                Err(MinstSymItemError::InvalidArgs(sym.duplicate()))
            } else if argc == 1 {
                Ok(MacroInstruction::Index { frame: argv[0], narg: None })
            } else if argc == 2 {
                Ok(MacroInstruction::Index { frame: argv[0], narg: Some(argv[1]) })
            } else {
                Err(MinstSymItemError::InvalidInstr(sym.duplicate()))
            }
        } else if str_is(name, ".RETURN") {
            if argc == 0 {
                Ok(MacroInstruction::Return { range: None })
            } else if argc == 1 {
                Ok(MacroInstruction::Return { range: Some(ReturnInstData::Arg(argv[0])) })
            } else if argc == 2 {
                if argv[0] == argv[1] {
                    Err(MinstSymItemError::InvalidInstr(sym.duplicate()))
                } else {
                    Ok(MacroInstruction::Return {
                        range: Some(ReturnInstData::Range(argv[0], argv[1])),
                    })
                }
            } else {
                Err(MinstSymItemError::InvalidInstr(sym.duplicate()))
            }
        } else {
            Err(MinstSymItemError::InvalidInstr(sym.duplicate()))
        }
    }
}


/// The character of one decimal digit.
pub open spec fn digit_char(d: int) -> char {
    if d == 0 {
        '0'
    } else if d == 1 {
        '1'
    } else if d == 2 {
        '2'
    } else if d == 3 {
        '3'
    } else if d == 4 {
        '4'
    } else if d == 5 {
        '5'
    } else if d == 6 {
        '6'
    } else if d == 7 {
        '7'
    } else if d == 8 {
        '8'
    } else {
        '9'
    }
}

/// The decimal digits of a non-negative value, most significant first.
pub open spec fn spec_udec(n: nat) -> Seq<char>
    decreases n,
{
    if n < 10 {
        seq![digit_char(n as int)]
    } else {
        spec_udec(n / 10).push(digit_char((n % 10) as int))
    }
}

/// The decimal text of a signed value.
pub open spec fn spec_idec(v: int) -> Seq<char> {
    if v < 0 {
        seq!['-'] + spec_udec((-v) as nat)
    } else {
        spec_udec(v as nat)
    }
}

/// Append one decimal digit.
fn push_digit(out: &mut String, d: u32)
    requires
        d < 10,
    ensures
        final(out)@ == old(out)@ + seq![digit_char(d as int)],
{
    let ghost pre = out@;
    if d == 0 {
        out.append("0");
        proof {
            reveal_strlit("0");
            assert(out@ =~= pre + seq![digit_char(d as int)]);
        }
    } else if d == 1 {
        out.append("1");
        proof {
            reveal_strlit("1");
            assert(out@ =~= pre + seq![digit_char(d as int)]);
        }
    } else if d == 2 {
        out.append("2");
        proof {
            reveal_strlit("2");
            assert(out@ =~= pre + seq![digit_char(d as int)]);
        }
    } else if d == 3 {
        out.append("3");
        proof {
            reveal_strlit("3");
            assert(out@ =~= pre + seq![digit_char(d as int)]);
        }
    } else if d == 4 {
        out.append("4");
        proof {
            reveal_strlit("4");
            assert(out@ =~= pre + seq![digit_char(d as int)]);
        }
    } else if d == 5 {
        out.append("5");
        proof {
            reveal_strlit("5");
            assert(out@ =~= pre + seq![digit_char(d as int)]);
        }
    } else if d == 6 {
        out.append("6");
        proof {
            reveal_strlit("6");
            assert(out@ =~= pre + seq![digit_char(d as int)]);
        }
    } else if d == 7 {
        out.append("7");
        proof {
            reveal_strlit("7");
            assert(out@ =~= pre + seq![digit_char(d as int)]);
        }
    } else if d == 8 {
        out.append("8");
        proof {
            reveal_strlit("8");
            assert(out@ =~= pre + seq![digit_char(d as int)]);
        }
    } else {
        out.append("9");
        proof {
            reveal_strlit("9");
            assert(out@ =~= pre + seq![digit_char(d as int)]);
        }
    }
}

/// Append the decimal digits of an unsigned value.
fn push_udec(out: &mut String, n: u32)
    ensures
        final(out)@ == old(out)@ + spec_udec(n as nat),
    decreases n,
{
    if n < 10 {
        push_digit(out, n);
    } else {
        let ghost pre = out@;
        push_udec(out, n / 10);
        push_digit(out, n % 10);
        proof {
            assert(out@ =~= pre + spec_udec((n / 10) as nat).push(
                digit_char((n % 10) as int),
            ));
        }
    }
}

/// Append the decimal text of a signed value.
fn push_idec(out: &mut String, v: i32)
    ensures
        final(out)@ == old(out)@ + spec_idec(v as int),
{
    if v < 0 {
        let ghost pre = out@;
        out.append("-");
        proof {
            reveal_strlit("-");
            assert(out@ =~= pre + seq!['-']);
        }
        let m = (-(v as i64)) as u32;
        proof {
            assert(m as nat == (-(v as int)) as nat);
        }
        push_udec(out, m);
        proof {
            assert(out@ =~= pre + (seq!['-'] + spec_udec((-(v as int)) as nat)));
        }
    } else {
        push_udec(out, v as u32);
    }
}

/// The exact textual form of an instruction: the dotted upper-case name and
/// its decimal arguments, parenthesised.
pub open spec fn spec_render_inst(inst: MacroInstruction) -> Seq<char> {
    match inst {
        MacroInstruction::Define => "(.DEFINE)"@,
        MacroInstruction::Expand => "(.EXPAND)"@,
        MacroInstruction::Index { frame, narg } => match narg {
            None => "(.INDEX "@ + spec_idec(frame as int) + ")"@,
            Some(n) => "(.INDEX "@ + spec_idec(frame as int) + " "@ + spec_idec(n as int) + ")"@,
        },
        MacroInstruction::Context { range } => match range {
            None => "(.CONTEXT)"@,
            Some((a, b)) => "(.CONTEXT "@ + spec_idec(a as int) + " "@ + spec_idec(b as int)
                + ")"@,
        },
        MacroInstruction::Return { range } => match range {
            None => "(.RETURN)"@,
            Some(ReturnInstData::Arg(a)) => "(.RETURN "@ + spec_idec(a as int) + ")"@,
            Some(ReturnInstData::Range(a, b)) => "(.RETURN "@ + spec_idec(a as int) + " "@
                + spec_idec(b as int) + ")"@,
        },
    }
}

impl MacroInstruction {
    /// The faithful textual rendering of the instruction.
    pub fn render(&self) -> (r: String)
        ensures
            r@ == spec_render_inst(*self),
    {
        let mut out = String::new();
        match self {
            MacroInstruction::Define => {
                out.append("(.DEFINE)");
            },
            MacroInstruction::Expand => {
                out.append("(.EXPAND)");
            },
            MacroInstruction::Index { frame, narg } => {
                out.append("(.INDEX ");
                push_idec(&mut out, *frame);
                match narg {
                    None => {},
                    Some(n) => {
                        out.append(" ");
                        push_idec(&mut out, *n);
                    },
                }
                out.append(")");
            },
            MacroInstruction::Context { range } => {
                match range {
                    None => {
                        out.append("(.CONTEXT)");
                    },
                    Some((a, b)) => {
                        out.append("(.CONTEXT ");
                        push_idec(&mut out, *a);
                        out.append(" ");
                        push_idec(&mut out, *b);
                        out.append(")");
                    },
                }
            },
            MacroInstruction::Return { range } => {
                match range {
                    None => {
                        out.append("(.RETURN)");
                    },
                    Some(ReturnInstData::Arg(a)) => {
                        out.append("(.RETURN ");
                        push_idec(&mut out, *a);
                        out.append(")");
                    },
                    Some(ReturnInstData::Range(a, b)) => {
                        out.append("(.RETURN ");
                        push_idec(&mut out, *a);
                        out.append(" ");
                        push_idec(&mut out, *b);
                        out.append(")");
                    },
                }
            },
        }
        proof {
            assert(out@ =~= spec_render_inst(*self));
        }
        out
    }
}


/// Arity boundary of `INDEX`: applied to integer arguments, the textual
/// form fails with no argument, succeeds with one (the frame) or two (frame
/// and position), and fails again with three or more.
pub proof fn lemma_index_arity(items: Seq<crate::sym::SymV>)
    requires
        items.len() >= 1,
        items[0] == crate::sym::SymV::Atom(".INDEX"@),
        args_all_ints(items),
    ensures
        items.len() == 1 ==> spec_inst_of(crate::sym::SymV::List(items)) == InstOutcome::BadArgs,
        items.len() == 2 ==> spec_inst_of(crate::sym::SymV::List(items)) == InstOutcome::Inst(
            MacroInstruction::Index { frame: arg_i32(items, 1), narg: None },
        ),
        items.len() == 3 ==> spec_inst_of(crate::sym::SymV::List(items)) == InstOutcome::Inst(
            MacroInstruction::Index { frame: arg_i32(items, 1), narg: Some(arg_i32(items, 2)) },
        ),
        items.len() >= 4 ==> spec_inst_of(crate::sym::SymV::List(items)) == InstOutcome::BadInstr,
{
    reveal_strlit(".INDEX");
    reveal_strlit(".DEFINE");
    reveal_strlit(".EXPAND");
    reveal_strlit(".CONTEXT");
    reveal_strlit(".RETURN");
    assert(".INDEX"@.len() == 6);
    assert(".INDEX"@[0] == '.');
    assert(".INDEX"@ != ".DEFINE"@);
    assert(".INDEX"@ != ".EXPAND"@);
    assert(".INDEX"@ != ".CONTEXT"@);
}

} // verus!
