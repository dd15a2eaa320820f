use vstd::prelude::*;
use vstd::string::StrSliceExecFns;

use crate::instruction::{
    find_match_bwd, find_match_fwd, loops_matched, scan_bwd, scan_fwd, Instruction,
};

verus! {

/// A condition under which a source text is rejected before execution.
#[derive(Clone, Copy, Debug, PartialEq, Eq, Structural)]
pub enum ParseError {
    /// A digit that selects no opcode.
    UnknownInstruction(u8),
    /// An opcode that consumes an operand stood at the end of the stream.
    NeedsArgument(u8),
    /// An `EIF` with no matching `IF` before it.
    MissingIf,
    /// An `IF` with no matching `EIF` after it.
    MissingEif,
}

/// A letter in the source alphabet: the characters that extend a word.
pub open spec fn is_letter(c: char) -> bool {
    (97 <= c as u32 <= 122) || (65 <= c as u32 <= 90)
}

/// How one source character is treated: letters pass through, apostrophes
/// vanish, and every other character separates words like a space.
pub open spec fn classify(c: char) -> Option<char> {
    if is_letter(c) {
        Some(c)
    } else if c == '\'' {
        None
    } else {
        Some(' ')
    }
}

/// The decimal digits of `n`, most significant first.
pub open spec fn digits_of(n: nat) -> Seq<u8>
    decreases n,
{
    if n < 10 {
        seq![n as u8]
    } else {
        digits_of(n / 10).push((n % 10) as u8)
    }
}

/// The digit entries contributed by one word of length `len`: a short word is
/// a single digit, a word of exactly ten letters stands for the digit zero,
/// and a longer word spells out its length digit by digit.
pub open spec fn word_digits(len: nat) -> Seq<u8> {
    if len < 10 {
        seq![len as u8]
    } else if len == 10 {
        seq![0u8]
    } else {
        digits_of(len)
    }
}

/// The digits emitted when a word of length `run` ends; a run of zero length
/// is no word at all and emits nothing.
pub open spec fn flush_run(run: nat) -> Seq<u8> {
    if run == 0 {
        Seq::empty()
    } else {
        word_digits(run)
    }
}

/// The digit stream of the remaining source text, given the length of the
/// letter run currently under way.
pub open spec fn inter(s: Seq<char>, run: nat) -> Seq<u8>
    decreases s.len(),
{
    if s.len() == 0 {
        flush_run(run)
    } else if is_letter(s[0]) {
        inter(s.drop_first(), run + 1)
    } else if s[0] == '\'' {
        inter(s.drop_first(), run)
    } else {
        flush_run(run) + inter(s.drop_first(), 0)
    }
}

/// The digit stream encoded by a whole source text.
pub open spec fn intermediate_of(s: Seq<char>) -> Seq<u8> {
    inter(s, 0)
}

/// Operand convention: a raw digit 0 stands for the operand value 10, which
/// the digit encoding cannot express directly.
pub open spec fn arg_conv(a: u8) -> u8 {
    if a == 0 {
        10
    } else {
        a
    }
}

/// The digits that select an opcode taking no operand.
pub open spec fn is_plain(d: u8) -> bool {
    d == 0 || d == 1 || d == 2 || d == 7 || d == 8 || d == 9 || d == 10
}

/// The digits that select an opcode consuming one operand digit.
pub open spec fn takes_argument(d: u8) -> bool {
    3 <= d <= 6
}

/// The opcode selected by a digit that takes no operand.
pub open spec fn plain_opcode(d: u8) -> Instruction {
    if d == 1 {
        Instruction::IF
    } else if d == 2 {
        Instruction::EIF
    } else if d == 7 {
        Instruction::OUT
    } else if d == 8 {
        Instruction::IN
    } else if d == 9 {
        Instruction::RND
    } else {
        Instruction::END
    }
}

/// The opcode selected by a digit together with its converted operand.
pub open spec fn arg_opcode(d: u8, op: u8) -> Instruction {
    if d == 3 {
        Instruction::INC(op)
    } else if d == 4 {
        Instruction::DEC(op)
    } else if d == 5 {
        Instruction::FWD(op)
    } else {
        Instruction::BAK(op)
    }
}

/// Prepends a decoded instruction to the result of decoding the rest of the
/// stream, letting an error pass through.
pub open spec fn dec_cons(
    x: Instruction,
    r: Result<Seq<Instruction>, ParseError>,
) -> Result<Seq<Instruction>, ParseError> {
    match r {
        Ok(t) => Ok(seq![x] + t),
        Err(e) => Err(e),
    }
}

/// Decodes a digit stream into an instruction sequence, left to right: the
/// first undecodable digit or missing operand stops the decode with its
/// error.
pub open spec fn decode(s: Seq<u8>) -> Result<Seq<Instruction>, ParseError>
    decreases s.len(),
{
    if s.len() == 0 {
        Ok(Seq::empty())
    } else {
        let d = s[0];
        if is_plain(d) {
            dec_cons(plain_opcode(d), decode(s.drop_first()))
        } else if takes_argument(d) {
            if s.len() == 1 {
                Err(ParseError::NeedsArgument(d))
            } else {
                dec_cons(arg_opcode(d, arg_conv(s[1])), decode(s.skip(2)))
            }
        } else {
            Err(ParseError::UnknownInstruction(d))
        }
    }
}

/// The first block-nesting fault at or after position `i`: an unclosed `IF`
/// reports a missing `EIF`, an unopened `EIF` a missing `IF`.
pub open spec fn loop_check(s: Seq<Instruction>, i: int) -> Option<ParseError>
    decreases s.len() - i,
{
    if i < 0 || i >= s.len() {
        None
    } else if s[i] is IF && scan_fwd(s, i + 1, 1) is None {
        Some(ParseError::MissingEif)
    } else if s[i] is EIF && scan_bwd(s, i - 1, -1) is None {
        Some(ParseError::MissingIf)
    } else {
        loop_check(s, i + 1)
    }
}

/// What decoding a digit stream yields once the block-nesting check has run:
/// either the validated program or the first error in decode order.
pub open spec fn parse_instructions_spec(s: Seq<u8>) -> Result<Seq<Instruction>, ParseError> {
    match decode(s) {
        Ok(p) => match loop_check(p, 0) {
            Some(e) => Err(e),
            None => Ok(p),
        },
        Err(e) => Err(e),
    }
}

/// What parsing a whole source text yields.
pub open spec fn parse_spec(text: Seq<char>) -> Result<Seq<Instruction>, ParseError> {
    parse_instructions_spec(intermediate_of(text))
}

/// A clean nesting check from position `i` on means every later `IF` and
/// `EIF` finds its match.
pub proof fn lemma_loop_check_none(s: Seq<Instruction>, i: int)
    requires
        0 <= i <= s.len(),
        loop_check(s, i) is None,
    ensures
        forall|j: int|
            i <= j < s.len() ==> {
                &&& (s[j] is IF ==> scan_fwd(s, j + 1, 1) is Some)
                &&& (s[j] is EIF ==> scan_bwd(s, j - 1, -1) is Some)
            },
    decreases s.len() - i,
{
    if i < s.len() {
        lemma_loop_check_none(s, i + 1);
    }
}

/// Prepending an already-decoded prefix to the decode of the rest of the
/// stream, letting an error pass through.
pub open spec fn pre_ok(
    p: Seq<Instruction>,
    r: Result<Seq<Instruction>, ParseError>,
) -> Result<Seq<Instruction>, ParseError> {
    match r {
        Ok(t) => Ok(p + t),
        Err(e) => Err(e),
    }
}

/// The parser: turns source text into a digit stream by word-length
/// encoding, then decodes the digits into a validated instruction sequence.
pub struct Parser {}

impl Parser {
    /// The decimal digits of `num`, most significant first.
    pub fn split_digits(num: usize) -> (r: Vec<usize>)
        ensures
            r@.len() == digits_of(num as nat).len(),
            forall|k: int| 0 <= k < r@.len() ==> r@[k] == digits_of(num as nat)[k] as usize,
    {
        let mut r: Vec<usize> = Vec::new();
        push_digits_usize(&mut r, num);
        r
    }

    /// How one source character is treated; see [`classify`].
    pub fn transform_char(c: char) -> (r: Option<char>)
        ensures
            r == classify(c),
    {
        let u = c as u32;
        if (97 <= u && u <= 122) || (65 <= u && u <= 90) {
            Some(c)
        } else if c == '\'' {
            None
        } else {
            Some(' ')
        }
    }

    /// Encodes source text as a digit stream: each maximal run of letters
    /// contributes its length, short runs as one digit, a run of exactly ten
    /// letters as the digit zero, and longer runs digit by digit.
    pub fn parse_intermediate(source: &str) -> (r: Vec<u8>)
        ensures
            r@ == intermediate_of(source@),
    {
        let text = Ghost(source@);
        let n = source.unicode_len();
        let mut result: Vec<u8> = Vec::new();
        let mut run: usize = 0;
        let mut i: usize = 0;
        proof {
            assert(text@.skip(0) =~= text@);
        }
        while i < n
            invariant
                i <= n,
                run <= i,
                n == text@.len(),
                text@ == source@,
                intermediate_of(text@) == result@ + inter(text@.skip(i as int), run as nat),
            decreases n - i,
        {
            let c = source.get_char(i);
            proof {
                assert(text@.skip(i as int)[0] == text@[i as int]);
                assert(text@.skip(i as int).drop_first() =~= text@.skip(i as int + 1));
            }
            match Parser::transform_char(c) {
                None => {},
                Some(t) => {
                    if t == ' ' {
                        push_word(&mut result, run);
                        run = 0;
                        proof {
                            assert(result@ + inter(text@.skip(i as int + 1), 0) =~= (result@
                                + inter(text@.skip(i as int + 1), 0)));
                        }
                    } else {
                        run = run + 1;
                    }
                },
            }
            i = i + 1;
        }
        proof {
            assert(text@.skip(n as int).len() == 0);
        }
        push_word(&mut result, run);
        result
    }

    /// Operand convention: a raw digit 0 is read as the operand 10.
    pub fn argument_conversion(argument: u8) -> (r: u8)
        ensures
            r == arg_conv(argument),
    {
        if argument == 0 {
            return 10;
        }
        argument
    }

    /// Scans a decoded sequence for the first block-nesting fault, if any.
    pub fn check_if_eif_mismatch(instructions: &[Instruction]) -> (r: Option<ParseError>)
        ensures
            r == loop_check(instructions@, 0),
    {
        let s = Ghost(instructions@);
        let n = instructions.len();
        let mut i: usize = 0;
        while i < n
            invariant
                i <= n,
                n == s@.len(),
                s@ == instructions@,
                loop_check(s@, 0) == loop_check(s@, i as int),
            decreases n - i,
        {
            match instructions[i] {
                Instruction::IF => {
                    if find_match_fwd(instructions, i).is_none() {
                        return Some(ParseError::MissingEif);
                    }
                },
                Instruction::EIF => {
                    if find_match_bwd(instructions, i).is_none() {
                        return Some(ParseError::MissingIf);
                    }
                },
                _ => {},
            }
            i = i + 1;
        }
        None
    }

    /// The display name of the opcode a digit selects, or `None` for a digit
    /// that selects no opcode.
    pub fn get_instruction_name(instruction: &u8) -> (r: Option<&'static str>)
        ensures
            match r {
                Some(name) => opcode_name(*instruction) == Some(name@),
                None => opcode_name(*instruction) is None,
            },
    {
        match *instruction {
            0 => Some("END"),
            1 => Some("IF"),
            2 => Some("EIF"),
            3 => Some("INC"),
            4 => Some("DEC"),
            5 => Some("FWD"),
            6 => Some("BAK"),
            7 => Some("OUT"),
            8 => Some("IN"),
            9 => Some("RND"),
            10 => Some("END"),
            _ => None,
        }
    }

    /// Decodes a digit stream and validates block nesting; the result is the
    /// program, or the first error in decode order.
    pub fn parse_instructions(intermediate: &[u8]) -> (r: Result<Vec<Instruction>, ParseError>)
        ensures
            match parse_instructions_spec(intermediate@) {
                Ok(p) => r matches Ok(v) && v@ == p && loops_matched(v@),
                Err(e) => r matches Err(e2) && e2 == e,
            },
    {
        let s = Ghost(intermediate@);
        let n = intermediate.len();
        let mut result: Vec<Instruction> = Vec::new();
        let mut i: usize = 0;
        proof {
            assert(s@.skip(0) =~= s@);
            assert(result@ + decode(s@)->Ok_0 =~= decode(s@)->Ok_0);
        }
        while i < n
            invariant
                i <= n,
                n == s@.len(),
                s@ == intermediate@,
                decode(s@) == pre_ok(result@, decode(s@.skip(i as int))),
            decreases n - i,
        {
            let d = intermediate[i];
            proof {
                assert(s@.skip(i as int)[0] == s@[i as int]);
                assert(s@.skip(i as int).drop_first() =~= s@.skip(i as int + 1));
                if i + 2 <= n {
                    assert(s@.skip(i as int).skip(2) =~= s@.skip(i as int + 2));
                }
            }
            if d == 3 || d == 4 || d == 5 || d == 6 {
                if i + 1 >= n {
                    proof {
                        assert(s@.skip(i as int).len() == 1);
                    }
                    return Err(ParseError::NeedsArgument(d));
                }
                let op = Parser::argument_conversion(intermediate[i + 1]);
                let instr = if d == 3 {
                    Instruction::INC(op)
                } else if d == 4 {
                    Instruction::DEC(op)
                } else if d == 5 {
                    Instruction::FWD(op)
                } else {
                    Instruction::BAK(op)
                };
                proof {
                    lemma_pre_ok_step(result@, instr, decode(s@.skip(i as int + 2)));
                }
                result.push(instr);
                i = i + 2;
            } else if d == 1 || d == 2 || d == 7 || d == 8 || d == 9 || d == 0 || d == 10 {
                let instr = if d == 1 {
                    Instruction::IF
                } else if d == 2 {
                    Instruction::EIF
                } else if d == 7 {
                    Instruction::OUT
                } else if d == 8 {
                    Instruction::IN
                } else if d == 9 {
                    Instruction::RND
                } else {
                    Instruction::END
                };
                proof {
                    lemma_pre_ok_step(result@, instr, decode(s@.skip(i as int + 1)));
                }
                result.push(instr);
                i = i + 1;
            } else {
                return Err(ParseError::UnknownInstruction(d));
            }
        }
        proof {
            assert(s@.skip(n as int).len() == 0);
            assert(result@ + Seq::<Instruction>::empty() =~= result@);
        }
        match Parser::check_if_eif_mismatch(result.as_slice()) {
            Some(e) => Err(e),
            None => {
                proof {
                    lemma_loop_check_none(result@, 0);
                }
                Ok(result)
            },
        }
    }

    /// The whole pipeline from source text to validated program.
    pub fn parse(source: &str) -> (r: Result<Vec<Instruction>, ParseError>)
        ensures
            match parse_spec(source@) {
                Ok(p) => r matches Ok(v) && v@ == p && loops_matched(v@),
                Err(e) => r matches Err(e2) && e2 == e,
            },
    {
        let intermediate = Self::parse_intermediate(source);
        Self::parse_instructions(intermediate.as_slice())
    }
}

/// The display name of the opcode a digit selects.
pub open spec fn opcode_name(d: u8) -> Option<Seq<char>> {
    if d == 0 || d == 10 {
        Some("END"@)
    } else if d == 1 {
        Some("IF"@)
    } else if d == 2 {
        Some("EIF"@)
    } else if d == 3 {
        Some("INC"@)
    } else if d == 4 {
        Some("DEC"@)
    } else if d == 5 {
        Some("FWD"@)
    } else if d == 6 {
        Some("BAK"@)
    } else if d == 7 {
        Some("OUT"@)
    } else if d == 8 {
        Some("IN"@)
    } else if d == 9 {
        Some("RND"@)
    } else {
        None
    }
}

/// One decoded instruction moves from the undecoded rest onto the prefix.
proof fn lemma_pre_ok_step(p: Seq<Instruction>, x: Instruction, r: Result<Seq<Instruction>, ParseError>)
    ensures
        pre_ok(p, dec_cons(x, r)) == pre_ok(p.push(x), r),
{
    match r {
        Ok(t) => {
            assert(p + (seq![x] + t) =~= p.push(x) + t);
        },
        Err(_) => {},
    }
}

/// Appends the decimal digits of `n`, most significant first.
fn push_digits_usize(v: &mut Vec<usize>, n: usize)
    ensures
        final(v)@.len() == old(v)@.len() + digits_of(n as nat).len(),
        forall|k: int| 0 <= k < old(v)@.len() ==> final(v)@[k] == old(v)@[k],
        forall|k: int|
            old(v)@.len() <= k < final(v)@.len() ==> final(v)@[k] == digits_of(n as nat)[k - old(v)@.len()] as usize,
    decreases n,
{
    if n < 10 {
        v.push(n);
    } else {
        push_digits_usize(v, n / 10);
        v.push(n % 10);
    }
}

/// Appends the decimal digits of `n`, most significant first.
fn push_digits(v: &mut Vec<u8>, n: usize)
    ensures
        final(v)@ == old(v)@ + digits_of(n as nat),
    decreases n,
{
    if n < 10 {
        v.push(n as u8);
        proof {
            assert(old(v)@.push(n as u8) =~= old(v)@ + digits_of(n as nat));
        }
    } else {
        let mid = Ghost(old(v)@ + digits_of((n / 10) as nat));
        push_digits(v, n / 10);
        v.push((n % 10) as u8);
        proof {
            assert(mid@.push((n % 10) as u8) =~= old(v)@ + digits_of(n as nat));
        }
    }
}

/// Appends the digits that a finished word of length `run` contributes.
fn push_word(v: &mut Vec<u8>, run: usize)
    ensures
        final(v)@ == old(v)@ + flush_run(run as nat),
{
    if run == 0 {
        proof {
            assert(old(v)@ + flush_run(0) =~= old(v)@);
        }
    } else if run < 10 {
        v.push(run as u8);
        proof {
            assert(old(v)@.push(run as u8) =~= old(v)@ + flush_run(run as nat));
        }
    } else if run == 10 {
        v.push(0);
        proof {
            assert(old(v)@.push(0u8) =~= old(v)@ + flush_run(run as nat));
        }
    } else {
        push_digits(v, run);
    }
}

} // verus!
