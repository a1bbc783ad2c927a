//! Parsing of operator commands. The interactive prompt itself is a
//! collaborator of the library, not part of it; what is parsed here is the
//! line-based command language: `start <n>`, `propose <id> <v>`,
//! `query <id>`, `exit`, each keyword also accepted as its first letter and
//! in any case. A line that parses to nothing is a soft error reported to
//! the operator, never a crash.

use vstd::prelude::*;

use crate::proposal::ValueType;

verus! {

/// An operator command.
#[derive(Clone, Copy, Debug, PartialEq, Eq, Structural)]
pub enum Command {
    /// Start a cluster of that many replicas.
    Start(u64),
    /// Ask one replica to propose a value.
    Propose(u64, ValueType),
    /// Ask one replica for the chosen value.
    Query(u64),
    /// Tear the cluster down.
    Exit,
}

/// The line did not spell a command.
#[derive(Clone, Copy, Debug, PartialEq, Eq, Structural)]
pub struct ParseCommandError;

/// ASCII whitespace, as the tokenizer splits on it.
pub open spec fn is_space(b: u8) -> bool {
    b == 32u8 || b == 9u8 || b == 10u8 || b == 13u8
}

/// ASCII lower-casing of one byte.
pub open spec fn to_lower(b: u8) -> u8 {
    if 65 <= b && b <= 90 {
        (b + 32) as u8
    } else {
        b
    }
}

/// ASCII lower-casing of a line.
pub open spec fn lower_bytes(s: Seq<u8>) -> Seq<u8> {
    s.map_values(|b: u8| to_lower(b))
}

/// The maximal runs of non-space bytes of `s`, in order.
pub open spec fn spec_tokens(s: Seq<u8>) -> Seq<Seq<u8>>
    decreases s.len(),
{
    if s.len() == 0 {
        Seq::empty()
    } else {
        let pre = spec_tokens(s.drop_last());
        let b = s.last();
        if is_space(b) {
            pre
        } else if s.len() >= 2 && !is_space(s[s.len() - 2]) {
            pre.update(pre.len() - 1, pre.last().push(b))
        } else {
            pre.push(seq![b])
        }
    }
}

/// Every byte is a decimal digit, and there is at least one.
pub open spec fn is_digits(s: Seq<u8>) -> bool {
    s.len() > 0 && forall|i: int| 0 <= i < s.len() ==> 48 <= #[trigger] s[i] <= 57
}

/// The number a digit string spells.
pub open spec fn digits_val(s: Seq<u8>) -> nat
    decreases s.len(),
{
    if s.len() == 0 {
        0
    } else {
        digits_val(s.drop_last()) * 10 + ((s.last() - 48) as nat)
    }
}

/// The number a token names, if it is all digits and fits.
pub open spec fn spec_parse_u64(s: Seq<u8>) -> Option<u64> {
    if is_digits(s) && digits_val(s) <= u64::MAX {
        Some(digits_val(s) as u64)
    } else {
        None
    }
}

/// The value a token names, if it is all digits and fits the value type.
pub open spec fn spec_parse_u32(s: Seq<u8>) -> Option<u32> {
    if is_digits(s) && digits_val(s) <= u32::MAX {
        Some(digits_val(s) as u32)
    } else {
        None
    }
}

/// The command a line spells, if any: the line is lower-cased, split on
/// whitespace, and matched against the four command shapes.
pub open spec fn spec_parse_command(line: Seq<u8>) -> Option<Command> {
    let toks = spec_tokens(lower_bytes(line));
    if toks.len() == 2 && (toks[0] == seq![115u8] || toks[0] == seq![
        115u8,
        116u8,
        97u8,
        114u8,
        116u8,
    ]) {
        match spec_parse_u64(toks[1]) {
            Some(n) => Some(Command::Start(n)),
            None => None,
        }
    } else if toks.len() == 3 && (toks[0] == seq![112u8] || toks[0] == seq![
        112u8,
        114u8,
        111u8,
        112u8,
        111u8,
        115u8,
        101u8,
    ]) {
        match (spec_parse_u64(toks[1]), spec_parse_u32(toks[2])) {
            (Some(id), Some(v)) => Some(Command::Propose(id, v)),
            _ => None,
        }
    } else if toks.len() == 2 && (toks[0] == seq![113u8] || toks[0] == seq![
        113u8,
        117u8,
        101u8,
        114u8,
        121u8,
    ]) {
        match spec_parse_u64(toks[1]) {
            Some(id) => Some(Command::Query(id)),
            None => None,
        }
    } else if toks.len() == 1 && (toks[0] == seq![120u8] || toks[0] == seq![
        101u8,
        120u8,
        105u8,
        116u8,
    ]) {
        Some(Command::Exit)
    } else {
        None
    }
}

/// The views of a list of byte vectors.
pub open spec fn tok_views(v: Seq<Vec<u8>>) -> Seq<Seq<u8>> {
    v.map_values(|w: Vec<u8>| w@)
}

fn lowercase(s: &Vec<u8>) -> (r: Vec<u8>)
    ensures
        r@ == lower_bytes(s@),
{
    let mut r: Vec<u8> = Vec::new();
    let mut i: usize = 0;
    while i < s.len()
        invariant
            i <= s.len(),
            r@ == lower_bytes(s@.take(i as int)),
        decreases s.len() - i,
    {
        let b = s[i];
        let low = if b >= 65 && b <= 90 {
            b + 32
        } else {
            b
        };
        r.push(low);
        proof {
            assert(r@ =~= lower_bytes(s@.take(i + 1)));
        }
        i += 1;
    }
    proof {
        assert(s@.take(s@.len() as int) =~= s@);
    }
    r
}

fn tokenize(s: &Vec<u8>) -> (r: Vec<Vec<u8>>)
    ensures
        tok_views(r@) == spec_tokens(s@),
{
    let mut toks: Vec<Vec<u8>> = Vec::new();
    let mut cur: Vec<u8> = Vec::new();
    let mut i: usize = 0;
    while i < s.len()
        invariant
            i <= s.len(),
            cur@.len() == 0 ==> tok_views(toks@) == spec_tokens(s@.take(i as int)) && (i == 0
                || is_space(s@[i - 1])),
            cur@.len() > 0 ==> i >= 1 && !is_space(s@[i - 1]) && spec_tokens(s@.take(i as int))
                == tok_views(toks@).push(cur@),
        decreases s.len() - i,
    {
        let b = s[i];
        proof {
            assert(s@.take(i + 1).drop_last() =~= s@.take(i as int));
            assert(s@.take(i + 1).last() == s@[i as int]);
        }
        if b == 32 || b == 9 || b == 10 || b == 13 {
            if cur.len() > 0 {
                toks.push(cur);
                cur = Vec::new();
                proof {
                    assert(tok_views(toks@) =~~= tok_views(toks@.drop_last()).push(
                        toks@.last()@,
                    ));
                }
            }
        } else {
            if cur.len() == 0 {
                cur.push(b);
                proof {
                    assert(spec_tokens(s@.take(i + 1)) =~~= tok_views(toks@).push(cur@));
                }
            } else {
                cur.push(b);
                proof {
                    let pre = spec_tokens(s@.take(i as int));
                    assert(pre.last() == cur@.drop_last());
                    assert(cur@.drop_last().push(s@[i as int]) =~= cur@);
                    assert(spec_tokens(s@.take(i + 1)) =~~= tok_views(toks@).push(cur@));
                }
            }
        }
        i += 1;
    }
    proof {
        assert(s@.take(s@.len() as int) =~= s@);
    }
    if cur.len() > 0 {
        toks.push(cur);
        proof {
            assert(tok_views(toks@) =~~= tok_views(toks@.drop_last()).push(toks@.last()@));
        }
    }
    toks
}

fn parse_u64_token(tok: &Vec<u8>) -> (r: Option<u64>)
    ensures
        r == spec_parse_u64(tok@),
{
    if tok.len() == 0 {
        return None;
    }
    let mut acc: u128 = 0;
    let mut i: usize = 0;
    while i < tok.len()
        invariant
            i <= tok.len(),
            acc as nat == digits_val(tok@.take(i as int)),
            acc <= u64::MAX,
            forall|k: int| 0 <= k < i ==> 48 <= #[trigger] tok@[k] <= 57,
        decreases tok.len() - i,
    {
        let b = tok[i];
        if b < 48 || b > 57 {
            return None;
        }
        acc = acc * 10 + ((b - 48) as u128);
        proof {
            assert(tok@.take(i + 1).drop_last() =~= tok@.take(i as int));
            assert(tok@.take(i + 1).last() == tok@[i as int]);
        }
        if acc > u64::MAX as u128 {
            proof {
                lemma_digits_val_monotone(tok@, i + 1, tok@.len() as int);
                assert(tok@.take(tok@.len() as int) =~= tok@);
            }
            return None;
        }
        i += 1;
    }
    proof {
        assert(tok@.take(tok@.len() as int) =~= tok@);
    }
    Some(acc as u64)
}

proof fn lemma_digits_val_monotone(s: Seq<u8>, i: int, j: int)
    requires
        0 <= i <= j <= s.len(),
    ensures
        digits_val(s.take(i)) <= digits_val(s.take(j)),
    decreases j - i,
{
    if i < j {
        lemma_digits_val_monotone(s, i, j - 1);
        assert(s.take(j).drop_last() =~= s.take(j - 1));
    }
}

fn parse_u32_token(tok: &Vec<u8>) -> (r: Option<u32>)
    ensures
        r == spec_parse_u32(tok@),
{
    match parse_u64_token(tok) {
        Some(n) => if n <= u32::MAX as u64 {
            Some(n as u32)
        } else {
            None
        },
        None => None,
    }
}

fn is_kw_start(tok: &Vec<u8>) -> (r: bool)
    ensures
        r == (tok@ == seq![115u8] || tok@ == seq![115u8, 116u8, 97u8, 114u8, 116u8]),
{
    if tok.len() == 1 {
        let r = tok[0] == 115;
        proof {
            if tok@[0] == 115u8 {
                assert(tok@ =~= seq![115u8]);
            }
        }
        r
    } else if tok.len() == 5 {
        let r = tok[0] == 115 && tok[1] == 116 && tok[2] == 97 && tok[3] == 114 && tok[4] == 116;
        proof {
            if tok@[0] == 115u8 && tok@[1] == 116u8 && tok@[2] == 97u8 && tok@[3] == 114u8
                && tok@[4] == 116u8 {
                assert(tok@ =~= seq![115u8, 116u8, 97u8, 114u8, 116u8]);
            }
        }
        r
    } else {
        false
    }
}

fn is_kw_propose(tok: &Vec<u8>) -> (r: bool)
    ensures
        r == (tok@ == seq![112u8] || tok@ == seq![112u8, 114u8, 111u8, 112u8, 111u8, 115u8, 101u8]),
{
    if tok.len() == 1 {
        let r = tok[0] == 112;
        proof {
            if tok@[0] == 112u8 {
                assert(tok@ =~= seq![112u8]);
            }
        }
        r
    } else if tok.len() == 7 {
        let r = tok[0] == 112 && tok[1] == 114 && tok[2] == 111 && tok[3] == 112 && tok[4] == 111
            && tok[5] == 115 && tok[6] == 101;
        proof {
            if tok@[0] == 112u8 && tok@[1] == 114u8 && tok@[2] == 111u8 && tok@[3] == 112u8
                && tok@[4] == 111u8 && tok@[5] == 115u8 && tok@[6] == 101u8 {
                assert(tok@ =~= seq![112u8, 114u8, 111u8, 112u8, 111u8, 115u8, 101u8]);
            }
        }
        r
    } else {
        false
    }
}

fn is_kw_query(tok: &Vec<u8>) -> (r: bool)
    ensures
        r == (tok@ == seq![113u8] || tok@ == seq![113u8, 117u8, 101u8, 114u8, 121u8]),
{
    if tok.len() == 1 {
        let r = tok[0] == 113;
        proof {
            if tok@[0] == 113u8 {
                assert(tok@ =~= seq![113u8]);
            }
        }
        r
    } else if tok.len() == 5 {
        let r = tok[0] == 113 && tok[1] == 117 && tok[2] == 101 && tok[3] == 114 && tok[4] == 121;
        proof {
            if tok@[0] == 113u8 && tok@[1] == 117u8 && tok@[2] == 101u8 && tok@[3] == 114u8
                && tok@[4] == 121u8 {
                assert(tok@ =~= seq![113u8, 117u8, 101u8, 114u8, 121u8]);
            }
        }
        r
    } else {
        false
    }
}

fn is_kw_exit(tok: &Vec<u8>) -> (r: bool)
    ensures
        r == (tok@ == seq![120u8] || tok@ == seq![101u8, 120u8, 105u8, 116u8]),
{
    if tok.len() == 1 {
        let r = tok[0] == 120;
        proof {
            if tok@[0] == 120u8 {
                assert(tok@ =~= seq![120u8]);
            }
        }
        r
    } else if tok.len() == 4 {
        let r = tok[0] == 101 && tok[1] == 120 && tok[2] == 105 && tok[3] == 116;
        proof {
            if tok@[0] == 101u8 && tok@[1] == 120u8 && tok@[2] == 105u8 && tok@[3] == 116u8 {
                assert(tok@ =~= seq![101u8, 120u8, 105u8, 116u8]);
            }
        }
        r
    } else {
        false
    }
}

impl Command {
    /// Parses one line of operator input, exactly as `spec_parse_command`
    /// describes: `Ok` with the command the line spells, or `Err` when it
    /// spells none.
    pub fn parse(line: &Vec<u8>) -> (r: Result<Command, ParseCommandError>)
        ensures
            match r {
                Ok(c) => spec_parse_command(line@) == Some(c),
                Err(e) => spec_parse_command(line@) is None,
            },
    {
        let low = lowercase(line);
        let toks = tokenize(&low);
        proof {
            assert(tok_views(toks@) == spec_tokens(lower_bytes(line@)));
        }
        if toks.len() == 2 && is_kw_start(&toks[0]) {
            match parse_u64_token(&toks[1]) {
                Some(n) => Ok(Command::Start(n)),
                None => Err(ParseCommandError),
            }
        } else if toks.len() == 3 && is_kw_propose(&toks[0]) {
            match (parse_u64_token(&toks[1]), parse_u32_token(&toks[2])) {
                (Some(id), Some(v)) => Ok(Command::Propose(id, v)),
                _ => Err(ParseCommandError),
            }
        } else if toks.len() == 2 && is_kw_query(&toks[0]) {
            match parse_u64_token(&toks[1]) {
                Some(id) => Ok(Command::Query(id)),
                None => Err(ParseCommandError),
            }
        } else if toks.len() == 1 && is_kw_exit(&toks[0]) {
            Ok(Command::Exit)
        } else {
            Err(ParseCommandError)
        }
    }
}

} // verus!
