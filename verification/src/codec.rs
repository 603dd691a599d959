//! The storage codec: the whole store as one text document, and the
//! parser that reads it back.
//!
//! The format is length-directed: numbers are decimal digits, least
//! significant first, closed by `.`; a string is its length followed by
//! its characters; a list is its count followed by its items; a tagged
//! value is one tag character followed by its payload.  Absent or
//! unparseable content simply fails to parse, and the caller falls back
//! to an empty store.  Parsing an encoded store reproduces it exactly;
//! the round trip is proved below.

use vstd::prelude::*;

use crate::model::ActionV;
use crate::model::ScheduledTask;
use crate::model::StepAction;
use crate::model::StepResult;
use crate::model::TaskHistory;
use crate::model::TaskRun;
use crate::model::TaskStep;
use crate::store::TaskStore;
use crate::model::Executor;
use crate::model::FailureAction;
use crate::model::RunStatus;
use crate::model::StepResultV;
use crate::model::StepStatus;
use crate::model::StepV;
use crate::model::TaskHistoryV;
use crate::model::TaskRunV;
use crate::model::TaskV;
use crate::text::digit_char;
use crate::text::digit_to_char;

verus! {

/// The digit value of a character, if it is one.
pub open spec fn digit_val(c: char) -> Option<u64> {
    if c == '0' { Option::Some(0u64) }
    else if c == '1' { Option::Some(1u64) }
    else if c == '2' { Option::Some(2u64) }
    else if c == '3' { Option::Some(3u64) }
    else if c == '4' { Option::Some(4u64) }
    else if c == '5' { Option::Some(5u64) }
    else if c == '6' { Option::Some(6u64) }
    else if c == '7' { Option::Some(7u64) }
    else if c == '8' { Option::Some(8u64) }
    else if c == '9' { Option::Some(9u64) }
    else { Option::None }
}

/// Decides [`digit_val`] on a concrete character.
pub fn char_digit_val(c: char) -> (r: Option<u64>)
    ensures
        r == digit_val(c),
{
    if c == '0' { Option::Some(0u64) }
    else if c == '1' { Option::Some(1u64) }
    else if c == '2' { Option::Some(2u64) }
    else if c == '3' { Option::Some(3u64) }
    else if c == '4' { Option::Some(4u64) }
    else if c == '5' { Option::Some(5u64) }
    else if c == '6' { Option::Some(6u64) }
    else if c == '7' { Option::Some(7u64) }
    else if c == '8' { Option::Some(8u64) }
    else if c == '9' { Option::Some(9u64) }
    else { Option::None }
}

/// A number's digits, least significant first.
pub open spec fn le_digits(n: u64) -> Seq<char>
    decreases n,
{
    if n < 10 {
        seq![digit_char(n as nat)]
    } else {
        seq![digit_char((n % 10) as nat)] + le_digits(n / 10)
    }
}

/// The encoding of a number: its digits, least significant first,
/// closed by a dot.
pub open spec fn enc_u64(n: u64) -> Seq<char> {
    le_digits(n) + seq!['.']
}

/// Reads digits up to a dot, least significant first.  An empty digit
/// run reads as zero; a missing dot or an overflowing value fails.
pub open spec fn parse_u64(s: Seq<char>, i: int) -> Option<(u64, int)>
    decreases s.len() - i,
{
    if i < 0 || i >= s.len() {
        Option::None
    } else if s[i] == '.' {
        Option::Some((0u64, i + 1))
    } else {
        match digit_val(s[i]) {
            Option::Some(d) => match parse_u64(s, i + 1) {
                Option::Some((r, j)) => if d + 10 * (r as int) <= u64::MAX {
                    Option::Some(((d + 10 * r) as u64, j))
                } else {
                    Option::None
                },
                Option::None => Option::None,
            },
            Option::None => Option::None,
        }
    }
}

/// A digit character carries its digit back.
proof fn lemma_digit_char_val(d: nat)
    requires
        d < 10,
    ensures
        digit_val(digit_char(d)) == Option::Some(d as u64),
{
}

/// Parsing an encoded number from its position yields it back and stops
/// right after the closing dot.
pub proof fn lemma_parse_u64(s: Seq<char>, i: int, n: u64)
    requires
        0 <= i,
        i + enc_u64(n).len() <= s.len(),
        s.subrange(i, i + enc_u64(n).len() as int) == enc_u64(n),
    ensures
        parse_u64(s, i) == Option::Some((n, i + enc_u64(n).len() as int)),
    decreases n,
{
    let e = enc_u64(n);
    assert(s[i] == e[0]);
    if n < 10 {
        assert(e =~= seq![digit_char(n as nat), '.']);
        assert(s[i] == digit_char(n as nat));
        lemma_digit_char_val(n as nat);
        assert(s[i + 1] == e[1]);
        assert(s[i + 1] == '.');
        assert(parse_u64(s, i + 1) == Option::Some((0u64, i + 2)));
        assert(digit_val(s[i]) == Option::Some(n));
    } else {
        assert(e[0] == digit_char((n % 10) as nat));
        lemma_digit_char_val((n % 10) as nat);
        let rest = enc_u64(n / 10);
        assert(e =~= seq![digit_char((n % 10) as nat)] + rest);
        assert(s.subrange(i + 1, i + 1 + rest.len() as int) =~= rest) by {
            assert forall|k: int| 0 <= k < rest.len() implies s.subrange(
                i + 1,
                i + 1 + rest.len() as int,
            )[k] == rest[k] by {
                assert(s[i + 1 + k] == e[1 + k]);
                assert(e[1 + k] == rest[k]);
            }
        }
        lemma_parse_u64(s, i + 1, n / 10);
        assert(digit_val(s[i]) == Option::Some((n % 10) as u64));
        assert((n % 10) + 10 * ((n / 10) as int) == n);
    }
}

/// The encoding of a string: its length, then its characters.
pub open spec fn enc_str(t: Seq<char>) -> Seq<char> {
    enc_u64(t.len() as u64) + t
}

/// Reads a length, then that many characters.
pub open spec fn parse_str(s: Seq<char>, i: int) -> Option<(Seq<char>, int)> {
    match parse_u64(s, i) {
        Option::Some((n, j)) => if j + n <= s.len() {
            Option::Some((s.subrange(j, j + n as int), j + n as int))
        } else {
            Option::None
        },
        Option::None => Option::None,
    }
}

/// Parsing an encoded string yields it back.
pub proof fn lemma_parse_str(s: Seq<char>, i: int, t: Seq<char>)
    requires
        0 <= i,
        t.len() <= u64::MAX,
        i + enc_str(t).len() <= s.len(),
        s.subrange(i, i + enc_str(t).len() as int) == enc_str(t),
    ensures
        parse_str(s, i) == Option::Some((t, i + enc_str(t).len() as int)),
{
    let e = enc_str(t);
    let lenpart = enc_u64(t.len() as u64);
    assert(e =~= lenpart + t);
    assert(s.subrange(i, i + lenpart.len() as int) =~= lenpart) by {
        assert forall|k: int| 0 <= k < lenpart.len() implies s.subrange(
            i,
            i + lenpart.len() as int,
        )[k] == lenpart[k] by {
            assert(s[i + k] == e[k]);
        }
    }
    lemma_parse_u64(s, i, t.len() as u64);
    let j = i + lenpart.len() as int;
    assert(s.subrange(j, j + t.len() as int) =~= t) by {
        assert forall|k: int| 0 <= k < t.len() implies s.subrange(j, j + t.len() as int)[k]
            == t[k] by {
            assert(s[j + k] == e[lenpart.len() + k]);
        }
    }
}

/// The encoding of a boolean: one character.
pub open spec fn enc_bool(b: bool) -> Seq<char> {
    if b {
        seq!['1']
    } else {
        seq!['0']
    }
}

/// Reads one boolean character.
pub open spec fn parse_bool(s: Seq<char>, i: int) -> Option<(bool, int)> {
    if 0 <= i < s.len() {
        if s[i] == '1' {
            Option::Some((true, i + 1))
        } else if s[i] == '0' {
            Option::Some((false, i + 1))
        } else {
            Option::None
        }
    } else {
        Option::None
    }
}

/// Parsing an encoded boolean yields it back.
pub proof fn lemma_parse_bool(s: Seq<char>, i: int, b: bool)
    requires
        0 <= i,
        i + 1 <= s.len(),
        s.subrange(i, i + 1) == enc_bool(b),
    ensures
        parse_bool(s, i) == Option::Some((b, i + 1)),
{
    assert(s[i] == enc_bool(b)[0]);
}

/// Within a region of `s` that reads as `a + b`, the two halves read as
/// `a` and `b`.
pub proof fn lemma_split_region(s: Seq<char>, i: int, a: Seq<char>, b: Seq<char>)
    requires
        0 <= i,
        i + a.len() + b.len() <= s.len(),
        s.subrange(i, i + a.len() + b.len()) == a + b,
    ensures
        s.subrange(i, i + a.len() as int) == a,
        s.subrange(i + a.len() as int, i + a.len() + b.len()) == b,
{
    let whole = s.subrange(i, i + a.len() + b.len());
    assert forall|k: int| 0 <= k < a.len() implies s.subrange(i, i + a.len() as int)[k]
        == a[k] by {
        assert(whole[k] == (a + b)[k]);
    }
    assert(s.subrange(i, i + a.len() as int) =~= a);
    assert forall|k: int| 0 <= k < b.len() implies s.subrange(
        i + a.len() as int,
        i + a.len() + b.len(),
    )[k] == b[k] by {
        assert(whole[a.len() + k] == (a + b)[a.len() + k]);
    }
    assert(s.subrange(i + a.len() as int, i + a.len() + b.len()) =~= b);
}

/// The encoding of an optional number.
pub open spec fn enc_opt_u64(o: Option<u64>) -> Seq<char> {
    match o {
        Option::None => seq!['0'],
        Option::Some(n) => seq!['1'] + enc_u64(n),
    }
}

/// Reads an optional number.
pub open spec fn parse_opt_u64(s: Seq<char>, i: int) -> Option<(Option<u64>, int)> {
    if 0 <= i < s.len() {
        if s[i] == '0' {
            Option::Some((Option::None, i + 1))
        } else if s[i] == '1' {
            match parse_u64(s, i + 1) {
                Option::Some((n, j)) => Option::Some((Option::Some(n), j)),
                Option::None => Option::None,
            }
        } else {
            Option::None
        }
    } else {
        Option::None
    }
}

/// Parsing an encoded optional number yields it back.
pub proof fn lemma_parse_opt_u64(s: Seq<char>, i: int, o: Option<u64>)
    requires
        0 <= i,
        i + enc_opt_u64(o).len() <= s.len(),
        s.subrange(i, i + enc_opt_u64(o).len() as int) == enc_opt_u64(o),
    ensures
        parse_opt_u64(s, i) == Option::Some((o, i + enc_opt_u64(o).len() as int)),
{
    let e = enc_opt_u64(o);
    assert(s[i] == e[0]);
    match o {
        Option::None => {},
        Option::Some(n) => {
            lemma_split_region(s, i, seq!['1'], enc_u64(n));
            lemma_parse_u64(s, i + 1, n);
        },
    }
}

/// The encoding of an optional string.
pub open spec fn enc_opt_str(o: Option<Seq<char>>) -> Seq<char> {
    match o {
        Option::None => seq!['0'],
        Option::Some(t) => seq!['1'] + enc_str(t),
    }
}

/// Reads an optional string.
pub open spec fn parse_opt_str(s: Seq<char>, i: int) -> Option<(Option<Seq<char>>, int)> {
    if 0 <= i < s.len() {
        if s[i] == '0' {
            Option::Some((Option::None, i + 1))
        } else if s[i] == '1' {
            match parse_str(s, i + 1) {
                Option::Some((t, j)) => Option::Some((Option::Some(t), j)),
                Option::None => Option::None,
            }
        } else {
            Option::None
        }
    } else {
        Option::None
    }
}

/// Whether an optional string is encodable.
pub open spec fn opt_str_ok(o: Option<Seq<char>>) -> bool {
    match o {
        Option::None => true,
        Option::Some(t) => t.len() <= u64::MAX,
    }
}

/// Parsing an encoded optional string yields it back.
pub proof fn lemma_parse_opt_str(s: Seq<char>, i: int, o: Option<Seq<char>>)
    requires
        0 <= i,
        opt_str_ok(o),
        i + enc_opt_str(o).len() <= s.len(),
        s.subrange(i, i + enc_opt_str(o).len() as int) == enc_opt_str(o),
    ensures
        parse_opt_str(s, i) == Option::Some((o, i + enc_opt_str(o).len() as int)),
{
    let e = enc_opt_str(o);
    assert(s[i] == e[0]);
    match o {
        Option::None => {},
        Option::Some(t) => {
            lemma_split_region(s, i, seq!['1'], enc_str(t));
            lemma_parse_str(s, i + 1, t);
        },
    }
}

/// The encoding of an executor tag.
pub open spec fn enc_executor(x: Executor) -> Seq<char> {
    match x {
        Executor::Local => seq!['0'],
        Executor::Web => seq!['1'],
        Executor::Ai => seq!['2'],
    }
}

/// Reads an executor tag.
pub open spec fn parse_executor(s: Seq<char>, i: int) -> Option<(Executor, int)> {
    if 0 <= i < s.len() {
        if s[i] == '0' {
            Option::Some((Executor::Local, i + 1))
        } else if s[i] == '1' {
            Option::Some((Executor::Web, i + 1))
        } else if s[i] == '2' {
            Option::Some((Executor::Ai, i + 1))
        } else {
            Option::None
        }
    } else {
        Option::None
    }
}

/// Parsing an encoded executor yields it back.
pub proof fn lemma_parse_executor(s: Seq<char>, i: int, x: Executor)
    requires
        0 <= i,
        i + 1 <= s.len(),
        s.subrange(i, i + 1) == enc_executor(x),
    ensures
        parse_executor(s, i) == Option::Some((x, i + 1)),
{
    assert(s[i] == enc_executor(x)[0]);
}

/// The encoding of a step status tag.
pub open spec fn enc_step_status(x: StepStatus) -> Seq<char> {
    match x {
        StepStatus::Pending => seq!['0'],
        StepStatus::Running => seq!['1'],
        StepStatus::Success => seq!['2'],
        StepStatus::Failed => seq!['3'],
        StepStatus::Skipped => seq!['4'],
    }
}

/// Reads a step status tag.
pub open spec fn parse_step_status(s: Seq<char>, i: int) -> Option<(StepStatus, int)> {
    if 0 <= i < s.len() {
        if s[i] == '0' {
            Option::Some((StepStatus::Pending, i + 1))
        } else if s[i] == '1' {
            Option::Some((StepStatus::Running, i + 1))
        } else if s[i] == '2' {
            Option::Some((StepStatus::Success, i + 1))
        } else if s[i] == '3' {
            Option::Some((StepStatus::Failed, i + 1))
        } else if s[i] == '4' {
            Option::Some((StepStatus::Skipped, i + 1))
        } else {
            Option::None
        }
    } else {
        Option::None
    }
}

/// Parsing an encoded step status yields it back.
pub proof fn lemma_parse_step_status(s: Seq<char>, i: int, x: StepStatus)
    requires
        0 <= i,
        i + 1 <= s.len(),
        s.subrange(i, i + 1) == enc_step_status(x),
    ensures
        parse_step_status(s, i) == Option::Some((x, i + 1)),
{
    assert(s[i] == enc_step_status(x)[0]);
}

/// The encoding of a run status tag.
pub open spec fn enc_run_status(x: RunStatus) -> Seq<char> {
    match x {
        RunStatus::Running => seq!['0'],
        RunStatus::Success => seq!['1'],
        RunStatus::PartialSuccess => seq!['2'],
        RunStatus::Failed => seq!['3'],
    }
}

/// Reads a run status tag.
pub open spec fn parse_run_status(s: Seq<char>, i: int) -> Option<(RunStatus, int)> {
    if 0 <= i < s.len() {
        if s[i] == '0' {
            Option::Some((RunStatus::Running, i + 1))
        } else if s[i] == '1' {
            Option::Some((RunStatus::Success, i + 1))
        } else if s[i] == '2' {
            Option::Some((RunStatus::PartialSuccess, i + 1))
        } else if s[i] == '3' {
            Option::Some((RunStatus::Failed, i + 1))
        } else {
            Option::None
        }
    } else {
        Option::None
    }
}

/// Parsing an encoded run status yields it back.
pub proof fn lemma_parse_run_status(s: Seq<char>, i: int, x: RunStatus)
    requires
        0 <= i,
        i + 1 <= s.len(),
        s.subrange(i, i + 1) == enc_run_status(x),
    ensures
        parse_run_status(s, i) == Option::Some((x, i + 1)),
{
    assert(s[i] == enc_run_status(x)[0]);
}

/// The encoding of a failure policy.
pub open spec fn enc_failure(x: FailureAction) -> Seq<char> {
    match x {
        FailureAction::Stop => seq!['0'],
        FailureAction::SkipAndContinue => seq!['1'],
        FailureAction::Retry { max_attempts } => seq!['2'] + enc_u64(max_attempts as u64),
    }
}

/// Reads a failure policy.
pub open spec fn parse_failure(s: Seq<char>, i: int) -> Option<(FailureAction, int)> {
    if 0 <= i < s.len() {
        if s[i] == '0' {
            Option::Some((FailureAction::Stop, i + 1))
        } else if s[i] == '1' {
            Option::Some((FailureAction::SkipAndContinue, i + 1))
        } else if s[i] == '2' {
            match parse_u64(s, i + 1) {
                Option::Some((n, j)) => if n <= u32::MAX {
                    Option::Some((FailureAction::Retry { max_attempts: n as u32 }, j))
                } else {
                    Option::None
                },
                Option::None => Option::None,
            }
        } else {
            Option::None
        }
    } else {
        Option::None
    }
}

/// Parsing an encoded failure policy yields it back.
pub proof fn lemma_parse_failure(s: Seq<char>, i: int, x: FailureAction)
    requires
        0 <= i,
        i + enc_failure(x).len() <= s.len(),
        s.subrange(i, i + enc_failure(x).len() as int) == enc_failure(x),
    ensures
        parse_failure(s, i) == Option::Some((x, i + enc_failure(x).len() as int)),
{
    let e = enc_failure(x);
    assert(s[i] == e[0]);
    match x {
        FailureAction::Stop => {},
        FailureAction::SkipAndContinue => {},
        FailureAction::Retry { max_attempts } => {
            lemma_split_region(s, i, seq!['2'], enc_u64(max_attempts as u64));
            lemma_parse_u64(s, i + 1, max_attempts as u64);
        },
    }
}

/// The encoding of one header pair.
pub open spec fn enc_pair(p: (Seq<char>, Seq<char>)) -> Seq<char> {
    enc_str(p.0) + enc_str(p.1)
}

/// Reads one header pair.
pub open spec fn parse_pair(s: Seq<char>, i: int) -> Option<((Seq<char>, Seq<char>), int)> {
    match parse_str(s, i) {
        Option::Some((a, j)) => match parse_str(s, j) {
            Option::Some((b, k)) => Option::Some(((a, b), k)),
            Option::None => Option::None,
        },
        Option::None => Option::None,
    }
}

/// Whether a header pair is encodable.
pub open spec fn pair_ok(p: (Seq<char>, Seq<char>)) -> bool {
    p.0.len() <= u64::MAX && p.1.len() <= u64::MAX
}

/// Parsing an encoded header pair yields it back.
pub proof fn lemma_parse_pair(s: Seq<char>, i: int, p: (Seq<char>, Seq<char>))
    requires
        0 <= i,
        pair_ok(p),
        i + enc_pair(p).len() <= s.len(),
        s.subrange(i, i + enc_pair(p).len() as int) == enc_pair(p),
    ensures
        parse_pair(s, i) == Option::Some((p, i + enc_pair(p).len() as int)),
{
    lemma_split_region(s, i, enc_str(p.0), enc_str(p.1));
    lemma_parse_str(s, i, p.0);
    lemma_parse_str(s, i + enc_str(p.0).len() as int, p.1);
}


/// The encoding of header pair items, in order.
pub open spec fn enc_pair_items(items: Seq<(Seq<char>, Seq<char>)>) -> Seq<char>
    decreases items.len(),
{
    if items.len() == 0 {
        Seq::empty()
    } else {
        enc_pair(items[0]) + enc_pair_items(items.drop_first())
    }
}

/// The encoding of a list of header pair: its count, then its items.
pub open spec fn enc_pair_list(items: Seq<(Seq<char>, Seq<char>)>) -> Seq<char> {
    enc_u64(items.len() as u64) + enc_pair_items(items)
}

/// Reads `count` header pair items.
pub open spec fn parse_pair_items(s: Seq<char>, i: int, count: u64) -> Option<(Seq<(Seq<char>, Seq<char>)>, int)>
    decreases count,
{
    if count == 0 {
        Option::Some((Seq::empty(), i))
    } else {
        match parse_pair(s, i) {
            Option::Some((v, j)) => match parse_pair_items(s, j, (count - 1) as u64) {
                Option::Some((vs, k)) => Option::Some((seq![v] + vs, k)),
                Option::None => Option::None,
            },
            Option::None => Option::None,
        }
    }
}

/// Reads a list of header pair.
pub open spec fn parse_pair_list(s: Seq<char>, i: int) -> Option<(Seq<(Seq<char>, Seq<char>)>, int)> {
    match parse_u64(s, i) {
        Option::Some((n, j)) => parse_pair_items(s, j, n),
        Option::None => Option::None,
    }
}

/// Whether a list of header pair is encodable.
pub open spec fn pair_list_ok(items: Seq<(Seq<char>, Seq<char>)>) -> bool {
    items.len() <= u64::MAX && forall|j: int| 0 <= j < items.len() ==> pair_ok(#[trigger] items[j])
}

/// Parsing encoded header pair items yields them back.
pub proof fn lemma_parse_pair_items(s: Seq<char>, i: int, items: Seq<(Seq<char>, Seq<char>)>)
    requires
        0 <= i,
        items.len() <= u64::MAX,
        forall|j: int| 0 <= j < items.len() ==> pair_ok(#[trigger] items[j]),
        i + enc_pair_items(items).len() <= s.len(),
        s.subrange(i, i + enc_pair_items(items).len() as int) == enc_pair_items(items),
    ensures
        parse_pair_items(s, i, items.len() as u64) == Option::Some(
            (items, i + enc_pair_items(items).len() as int),
        ),
    decreases items.len(),
{
    if items.len() > 0 {
        let h = items[0];
        let rest = items.drop_first();
        lemma_split_region(s, i, enc_pair(h), enc_pair_items(rest));
        lemma_parse_pair(s, i, h);
        let j = i + enc_pair(h).len() as int;
        assert forall|k: int| 0 <= k < rest.len() implies pair_ok(#[trigger] rest[k]) by {
            assert(rest[k] == items[k + 1]);
        }
        lemma_parse_pair_items(s, j, rest);
        assert(seq![h] + rest =~= items);
    }
}

/// Parsing an encoded list of header pair yields it back.
pub proof fn lemma_parse_pair_list(s: Seq<char>, i: int, items: Seq<(Seq<char>, Seq<char>)>)
    requires
        0 <= i,
        pair_list_ok(items),
        i + enc_pair_list(items).len() <= s.len(),
        s.subrange(i, i + enc_pair_list(items).len() as int) == enc_pair_list(items),
    ensures
        parse_pair_list(s, i) == Option::Some((items, i + enc_pair_list(items).len() as int)),
{
    lemma_split_region(s, i, enc_u64(items.len() as u64), enc_pair_items(items));
    lemma_parse_u64(s, i, items.len() as u64);
    lemma_parse_pair_items(s, i + enc_u64(items.len() as u64).len() as int, items);
}


/// The encoding of an optional header list.
pub open spec fn enc_opt_pairs(o: Option<Seq<(Seq<char>, Seq<char>)>>) -> Seq<char> {
    match o {
        Option::None => seq!['0'],
        Option::Some(ps) => seq!['1'] + enc_pair_list(ps),
    }
}

/// Reads an optional header list.
pub open spec fn parse_opt_pairs(s: Seq<char>, i: int) -> Option<
    (Option<Seq<(Seq<char>, Seq<char>)>>, int),
> {
    if 0 <= i < s.len() {
        if s[i] == '0' {
            Option::Some((Option::None, i + 1))
        } else if s[i] == '1' {
            match parse_pair_list(s, i + 1) {
                Option::Some((ps, j)) => Option::Some((Option::Some(ps), j)),
                Option::None => Option::None,
            }
        } else {
            Option::None
        }
    } else {
        Option::None
    }
}

/// Whether an optional header list is encodable.
pub open spec fn opt_pairs_ok(o: Option<Seq<(Seq<char>, Seq<char>)>>) -> bool {
    match o {
        Option::None => true,
        Option::Some(ps) => pair_list_ok(ps),
    }
}

/// Parsing an encoded optional header list yields it back.
pub proof fn lemma_parse_opt_pairs(s: Seq<char>, i: int, o: Option<Seq<(Seq<char>, Seq<char>)>>)
    requires
        0 <= i,
        opt_pairs_ok(o),
        i + enc_opt_pairs(o).len() <= s.len(),
        s.subrange(i, i + enc_opt_pairs(o).len() as int) == enc_opt_pairs(o),
    ensures
        parse_opt_pairs(s, i) == Option::Some((o, i + enc_opt_pairs(o).len() as int)),
{
    assert(s[i] == enc_opt_pairs(o)[0]);
    match o {
        Option::None => {},
        Option::Some(ps) => {
            lemma_split_region(s, i, seq!['1'], enc_pair_list(ps));
            lemma_parse_pair_list(s, i + 1, ps);
        },
    }
}

/// The encoding of a step action: a tag, then its payload.
pub open spec fn enc_action(a: ActionV) -> Seq<char> {
    match a {
        ActionV::RunCommand { command, cwd } => seq!['0'] + (enc_str(command) + enc_opt_str(cwd)),
        ActionV::BackupFiles { source, destination } => seq!['1'] + (enc_str(source) + enc_str(
            destination,
        )),
        ActionV::GitCommit { message } => seq!['2'] + enc_str(message),
        ActionV::GitPush { remote, branch } => seq!['3'] + (enc_opt_str(remote) + enc_opt_str(
            branch,
        )),
        ActionV::RunScript { path } => seq!['4'] + enc_str(path),
        ActionV::DeleteFiles { path, pattern } => seq!['5'] + (enc_str(path) + enc_str(pattern)),
        ActionV::HttpRequest { url, method, headers, body } => seq!['6'] + (enc_str(url) + (
        enc_str(method) + (enc_opt_pairs(headers) + enc_opt_str(body)))),
        ActionV::DeployTrigger { provider, project_id } => seq!['7'] + (enc_str(provider)
            + enc_str(project_id)),
        ActionV::SendWebhook { url, payload } => seq!['8'] + (enc_str(url) + enc_opt_str(payload)),
        ActionV::GenerateContent { prompt, output_path } => seq!['9'] + (enc_str(prompt)
            + enc_opt_str(output_path)),
        ActionV::AnalyzeAndAct { prompt } => seq!['a'] + enc_str(prompt),
    }
}

/// Reads a step action.
pub open spec fn parse_action(s: Seq<char>, i: int) -> Option<(ActionV, int)> {
    if 0 <= i < s.len() {
        if s[i] == '0' {
            match parse_str(s, i + 1) {
                Option::Some((command, j)) => match parse_opt_str(s, j) {
                    Option::Some((cwd, k)) => Option::Some(
                        (ActionV::RunCommand { command, cwd }, k),
                    ),
                    Option::None => Option::None,
                },
                Option::None => Option::None,
            }
        } else if s[i] == '1' {
            match parse_str(s, i + 1) {
                Option::Some((source, j)) => match parse_str(s, j) {
                    Option::Some((destination, k)) => Option::Some(
                        (ActionV::BackupFiles { source, destination }, k),
                    ),
                    Option::None => Option::None,
                },
                Option::None => Option::None,
            }
        } else if s[i] == '2' {
            match parse_str(s, i + 1) {
                Option::Some((message, j)) => Option::Some((ActionV::GitCommit { message }, j)),
                Option::None => Option::None,
            }
        } else if s[i] == '3' {
            match parse_opt_str(s, i + 1) {
                Option::Some((remote, j)) => match parse_opt_str(s, j) {
                    Option::Some((branch, k)) => Option::Some(
                        (ActionV::GitPush { remote, branch }, k),
                    ),
                    Option::None => Option::None,
                },
                Option::None => Option::None,
            }
        } else if s[i] == '4' {
            match parse_str(s, i + 1) {
                Option::Some((path, j)) => Option::Some((ActionV::RunScript { path }, j)),
                Option::None => Option::None,
            }
        } else if s[i] == '5' {
            match parse_str(s, i + 1) {
                Option::Some((path, j)) => match parse_str(s, j) {
                    Option::Some((pattern, k)) => Option::Some(
                        (ActionV::DeleteFiles { path, pattern }, k),
                    ),
                    Option::None => Option::None,
                },
                Option::None => Option::None,
            }
        } else if s[i] == '6' {
            match parse_str(s, i + 1) {
                Option::Some((url, j)) => match parse_str(s, j) {
                    Option::Some((method, k)) => match parse_opt_pairs(s, k) {
                        Option::Some((headers, l)) => match parse_opt_str(s, l) {
                            Option::Some((body, m)) => Option::Some(
                                (ActionV::HttpRequest { url, method, headers, body }, m),
                            ),
                            Option::None => Option::None,
                        },
                        Option::None => Option::None,
                    },
                    Option::None => Option::None,
                },
                Option::None => Option::None,
            }
        } else if s[i] == '7' {
            match parse_str(s, i + 1) {
                Option::Some((provider, j)) => match parse_str(s, j) {
                    Option::Some((project_id, k)) => Option::Some(
                        (ActionV::DeployTrigger { provider, project_id }, k),
                    ),
                    Option::None => Option::None,
                },
                Option::None => Option::None,
            }
        } else if s[i] == '8' {
            match parse_str(s, i + 1) {
                Option::Some((url, j)) => match parse_opt_str(s, j) {
                    Option::Some((payload, k)) => Option::Some(
                        (ActionV::SendWebhook { url, payload }, k),
                    ),
                    Option::None => Option::None,
                },
                Option::None => Option::None,
            }
        } else if s[i] == '9' {
            match parse_str(s, i + 1) {
                Option::Some((prompt, j)) => match parse_opt_str(s, j) {
                    Option::Some((output_path, k)) => Option::Some(
                        (ActionV::GenerateContent { prompt, output_path }, k),
                    ),
                    Option::None => Option::None,
                },
                Option::None => Option::None,
            }
        } else if s[i] == 'a' {
            match parse_str(s, i + 1) {
                Option::Some((prompt, j)) => Option::Some((ActionV::AnalyzeAndAct { prompt }, j)),
                Option::None => Option::None,
            }
        } else {
            Option::None
        }
    } else {
        Option::None
    }
}

/// Whether a step action is encodable.
pub open spec fn action_ok(a: ActionV) -> bool {
    match a {
        ActionV::RunCommand { command, cwd } => command.len() <= u64::MAX && opt_str_ok(cwd),
        ActionV::BackupFiles { source, destination } => source.len() <= u64::MAX
            && destination.len() <= u64::MAX,
        ActionV::GitCommit { message } => message.len() <= u64::MAX,
        ActionV::GitPush { remote, branch } => opt_str_ok(remote) && opt_str_ok(branch),
        ActionV::RunScript { path } => path.len() <= u64::MAX,
        ActionV::DeleteFiles { path, pattern } => path.len() <= u64::MAX && pattern.len()
            <= u64::MAX,
        ActionV::HttpRequest { url, method, headers, body } => url.len() <= u64::MAX
            && method.len() <= u64::MAX && opt_pairs_ok(headers) && opt_str_ok(body),
        ActionV::DeployTrigger { provider, project_id } => provider.len() <= u64::MAX
            && project_id.len() <= u64::MAX,
        ActionV::SendWebhook { url, payload } => url.len() <= u64::MAX && opt_str_ok(payload),
        ActionV::GenerateContent { prompt, output_path } => prompt.len() <= u64::MAX && opt_str_ok(
            output_path,
        ),
        ActionV::AnalyzeAndAct { prompt } => prompt.len() <= u64::MAX,
    }
}

/// Parsing an encoded step action yields it back.
#[verifier::rlimit(100)]
#[verifier::spinoff_prover]
pub proof fn lemma_parse_action(s: Seq<char>, i: int, a: ActionV)
    requires
        0 <= i,
        action_ok(a),
        i + enc_action(a).len() <= s.len(),
        s.subrange(i, i + enc_action(a).len() as int) == enc_action(a),
    ensures
        parse_action(s, i) == Option::Some((a, i + enc_action(a).len() as int)),
{
    let e = enc_action(a);
    assert(s[i] == e[0]);
    match a {
        ActionV::RunCommand { command, cwd } => {
            lemma_split_region(s, i, seq!['0'], enc_str(command) + enc_opt_str(cwd));
            lemma_split_region(s, i + 1, enc_str(command), enc_opt_str(cwd));
            lemma_parse_str(s, i + 1, command);
            lemma_parse_opt_str(s, i + 1 + enc_str(command).len() as int, cwd);
        },
        ActionV::BackupFiles { source, destination } => {
            lemma_split_region(s, i, seq!['1'], enc_str(source) + enc_str(destination));
            lemma_split_region(s, i + 1, enc_str(source), enc_str(destination));
            lemma_parse_str(s, i + 1, source);
            lemma_parse_str(s, i + 1 + enc_str(source).len() as int, destination);
        },
        ActionV::GitCommit { message } => {
            lemma_split_region(s, i, seq!['2'], enc_str(message));
            lemma_parse_str(s, i + 1, message);
        },
        ActionV::GitPush { remote, branch } => {
            lemma_split_region(s, i, seq!['3'], enc_opt_str(remote) + enc_opt_str(branch));
            lemma_split_region(s, i + 1, enc_opt_str(remote), enc_opt_str(branch));
            lemma_parse_opt_str(s, i + 1, remote);
            lemma_parse_opt_str(s, i + 1 + enc_opt_str(remote).len() as int, branch);
        },
        ActionV::RunScript { path } => {
            lemma_split_region(s, i, seq!['4'], enc_str(path));
            lemma_parse_str(s, i + 1, path);
        },
        ActionV::DeleteFiles { path, pattern } => {
            lemma_split_region(s, i, seq!['5'], enc_str(path) + enc_str(pattern));
            lemma_split_region(s, i + 1, enc_str(path), enc_str(pattern));
            lemma_parse_str(s, i + 1, path);
            lemma_parse_str(s, i + 1 + enc_str(path).len() as int, pattern);
        },
        ActionV::HttpRequest { url, method, headers, body } => {
            lemma_split_region(
                s,
                i,
                seq!['6'],
                enc_str(url) + (enc_str(method) + (enc_opt_pairs(headers) + enc_opt_str(body))),
            );
            let j = i + 1;
            lemma_split_region(
                s,
                j,
                enc_str(url),
                enc_str(method) + (enc_opt_pairs(headers) + enc_opt_str(body)),
            );
            lemma_parse_str(s, j, url);
            let k = j + enc_str(url).len() as int;
            lemma_split_region(s, k, enc_str(method), enc_opt_pairs(headers) + enc_opt_str(body));
            lemma_parse_str(s, k, method);
            let l = k + enc_str(method).len() as int;
            lemma_split_region(s, l, enc_opt_pairs(headers), enc_opt_str(body));
            lemma_parse_opt_pairs(s, l, headers);
            let m = l + enc_opt_pairs(headers).len() as int;
            lemma_parse_opt_str(s, m, body);
        },
        ActionV::DeployTrigger { provider, project_id } => {
            lemma_split_region(s, i, seq!['7'], enc_str(provider) + enc_str(project_id));
            lemma_split_region(s, i + 1, enc_str(provider), enc_str(project_id));
            lemma_parse_str(s, i + 1, provider);
            lemma_parse_str(s, i + 1 + enc_str(provider).len() as int, project_id);
        },
        ActionV::SendWebhook { url, payload } => {
            lemma_split_region(s, i, seq!['8'], enc_str(url) + enc_opt_str(payload));
            lemma_split_region(s, i + 1, enc_str(url), enc_opt_str(payload));
            lemma_parse_str(s, i + 1, url);
            lemma_parse_opt_str(s, i + 1 + enc_str(url).len() as int, payload);
        },
        ActionV::GenerateContent { prompt, output_path } => {
            lemma_split_region(s, i, seq!['9'], enc_str(prompt) + enc_opt_str(output_path));
            lemma_split_region(s, i + 1, enc_str(prompt), enc_opt_str(output_path));
            lemma_parse_str(s, i + 1, prompt);
            lemma_parse_opt_str(s, i + 1 + enc_str(prompt).len() as int, output_path);
        },
        ActionV::AnalyzeAndAct { prompt } => {
            lemma_split_region(s, i, seq!['a'], enc_str(prompt));
            lemma_parse_str(s, i + 1, prompt);
        },
    }
}


/// The encoding of a task step.
pub open spec fn enc_step(v: StepV) -> Seq<char> {
    enc_str(v.id) + (enc_str(v.name) + (enc_executor(v.executor) + (enc_action(v.action)
        + enc_bool(v.depends_on_previous))))
}

/// Reads a task step.
pub open spec fn parse_step(s: Seq<char>, i: int) -> Option<(StepV, int)> {
    match parse_str(s, i) {
        Option::Some((id, a)) => match parse_str(s, a) {
            Option::Some((name, b)) => match parse_executor(s, b) {
                Option::Some((executor, c)) => match parse_action(s, c) {
                    Option::Some((action, d)) => match parse_bool(s, d) {
                        Option::Some((depends_on_previous, e)) => Option::Some(
                            (StepV { id, name, executor, action, depends_on_previous }, e),
                        ),
                        Option::None => Option::None,
                    },
                    Option::None => Option::None,
                },
                Option::None => Option::None,
            },
            Option::None => Option::None,
        },
        Option::None => Option::None,
    }
}

/// Whether a task step is encodable.
pub open spec fn step_ok(v: StepV) -> bool {
    v.id.len() <= u64::MAX && v.name.len() <= u64::MAX && action_ok(v.action)
}

/// Parsing an encoded task step yields it back.
pub proof fn lemma_parse_step(s: Seq<char>, i: int, v: StepV)
    requires
        0 <= i,
        step_ok(v),
        i + enc_step(v).len() <= s.len(),
        s.subrange(i, i + enc_step(v).len() as int) == enc_step(v),
    ensures
        parse_step(s, i) == Option::Some((v, i + enc_step(v).len() as int)),
{
    lemma_split_region(
        s,
        i,
        enc_str(v.id),
        enc_str(v.name) + (enc_executor(v.executor) + (enc_action(v.action) + enc_bool(
            v.depends_on_previous,
        ))),
    );
    lemma_parse_str(s, i, v.id);
    let a = i + enc_str(v.id).len() as int;
    lemma_split_region(
        s,
        a,
        enc_str(v.name),
        enc_executor(v.executor) + (enc_action(v.action) + enc_bool(v.depends_on_previous)),
    );
    lemma_parse_str(s, a, v.name);
    let b = a + enc_str(v.name).len() as int;
    lemma_split_region(
        s,
        b,
        enc_executor(v.executor),
        enc_action(v.action) + enc_bool(v.depends_on_previous),
    );
    lemma_parse_executor(s, b, v.executor);
    let c = b + enc_executor(v.executor).len() as int;
    lemma_split_region(s, c, enc_action(v.action), enc_bool(v.depends_on_previous));
    lemma_parse_action(s, c, v.action);
    let d = c + enc_action(v.action).len() as int;
    lemma_parse_bool(s, d, v.depends_on_previous);
}

/// The encoding of task step items, in order.
pub open spec fn enc_step_items(items: Seq<StepV>) -> Seq<char>
    decreases items.len(),
{
    if items.len() == 0 {
        Seq::empty()
    } else {
        enc_step(items[0]) + enc_step_items(items.drop_first())
    }
}

/// The encoding of a list of task step: its count, then its items.
pub open spec fn enc_step_list(items: Seq<StepV>) -> Seq<char> {
    enc_u64(items.len() as u64) + enc_step_items(items)
}

/// Reads `count` task step items.
pub open spec fn parse_step_items(s: Seq<char>, i: int, count: u64) -> Option<(Seq<StepV>, int)>
    decreases count,
{
    if count == 0 {
        Option::Some((Seq::empty(), i))
    } else {
        match parse_step(s, i) {
            Option::Some((v, j)) => match parse_step_items(s, j, (count - 1) as u64) {
                Option::Some((vs, k)) => Option::Some((seq![v] + vs, k)),
                Option::None => Option::None,
            },
            Option::None => Option::None,
        }
    }
}

/// Reads a list of task step.
pub open spec fn parse_step_list(s: Seq<char>, i: int) -> Option<(Seq<StepV>, int)> {
    match parse_u64(s, i) {
        Option::Some((n, j)) => parse_step_items(s, j, n),
        Option::None => Option::None,
    }
}

/// Whether a list of task step is encodable.
pub open spec fn step_list_ok(items: Seq<StepV>) -> bool {
    items.len() <= u64::MAX && forall|j: int| 0 <= j < items.len() ==> step_ok(#[trigger] items[j])
}

/// Parsing encoded task step items yields them back.
pub proof fn lemma_parse_step_items(s: Seq<char>, i: int, items: Seq<StepV>)
    requires
        0 <= i,
        items.len() <= u64::MAX,
        forall|j: int| 0 <= j < items.len() ==> step_ok(#[trigger] items[j]),
        i + enc_step_items(items).len() <= s.len(),
        s.subrange(i, i + enc_step_items(items).len() as int) == enc_step_items(items),
    ensures
        parse_step_items(s, i, items.len() as u64) == Option::Some(
            (items, i + enc_step_items(items).len() as int),
        ),
    decreases items.len(),
{
    if items.len() > 0 {
        let h = items[0];
        let rest = items.drop_first();
        lemma_split_region(s, i, enc_step(h), enc_step_items(rest));
        lemma_parse_step(s, i, h);
        let j = i + enc_step(h).len() as int;
        assert forall|k: int| 0 <= k < rest.len() implies step_ok(#[trigger] rest[k]) by {
            assert(rest[k] == items[k + 1]);
        }
        lemma_parse_step_items(s, j, rest);
        assert(seq![h] + rest =~= items);
    }
}

/// Parsing an encoded list of task step yields it back.
pub proof fn lemma_parse_step_list(s: Seq<char>, i: int, items: Seq<StepV>)
    requires
        0 <= i,
        step_list_ok(items),
        i + enc_step_list(items).len() <= s.len(),
        s.subrange(i, i + enc_step_list(items).len() as int) == enc_step_list(items),
    ensures
        parse_step_list(s, i) == Option::Some((items, i + enc_step_list(items).len() as int)),
{
    lemma_split_region(s, i, enc_u64(items.len() as u64), enc_step_items(items));
    lemma_parse_u64(s, i, items.len() as u64);
    lemma_parse_step_items(s, i + enc_u64(items.len() as u64).len() as int, items);
}

/// The encoding of a step result.
pub open spec fn enc_result(v: StepResultV) -> Seq<char> {
    enc_str(v.step_id) + (enc_step_status(v.status) + (enc_opt_str(v.output) + (enc_opt_str(
        v.error,
    ) + (enc_u64(v.started_at) + enc_opt_u64(v.finished_at)))))
}

/// Reads a step result.
pub open spec fn parse_result(s: Seq<char>, i: int) -> Option<(StepResultV, int)> {
    match parse_str(s, i) {
        Option::Some((step_id, a)) => match parse_step_status(s, a) {
            Option::Some((status, b)) => match parse_opt_str(s, b) {
                Option::Some((output, c)) => match parse_opt_str(s, c) {
                    Option::Some((error, d)) => match parse_u64(s, d) {
                        Option::Some((started_at, e)) => match parse_opt_u64(s, e) {
                            Option::Some((finished_at, f)) => Option::Some(
                                (
                                    StepResultV {
                                        step_id,
                                        status,
                                        output,
                                        error,
                                        started_at,
                                        finished_at,
                                    },
                                    f,
                                ),
                            ),
                            Option::None => Option::None,
                        },
                        Option::None => Option::None,
                    },
                    Option::None => Option::None,
                },
                Option::None => Option::None,
            },
            Option::None => Option::None,
        },
        Option::None => Option::None,
    }
}

/// Whether a step result is encodable.
pub open spec fn result_ok(v: StepResultV) -> bool {
    v.step_id.len() <= u64::MAX && opt_str_ok(v.output) && opt_str_ok(v.error)
}

/// Parsing an encoded step result yields it back.
pub proof fn lemma_parse_result(s: Seq<char>, i: int, v: StepResultV)
    requires
        0 <= i,
        result_ok(v),
        i + enc_result(v).len() <= s.len(),
        s.subrange(i, i + enc_result(v).len() as int) == enc_result(v),
    ensures
        parse_result(s, i) == Option::Some((v, i + enc_result(v).len() as int)),
{
    lemma_split_region(
        s,
        i,
        enc_str(v.step_id),
        enc_step_status(v.status) + (enc_opt_str(v.output) + (enc_opt_str(v.error) + (enc_u64(
            v.started_at,
        ) + enc_opt_u64(v.finished_at)))),
    );
    lemma_parse_str(s, i, v.step_id);
    let a = i + enc_str(v.step_id).len() as int;
    lemma_split_region(
        s,
        a,
        enc_step_status(v.status),
        enc_opt_str(v.output) + (enc_opt_str(v.error) + (enc_u64(v.started_at) + enc_opt_u64(
            v.finished_at,
        ))),
    );
    lemma_parse_step_status(s, a, v.status);
    let b = a + enc_step_status(v.status).len() as int;
    lemma_split_region(
        s,
        b,
        enc_opt_str(v.output),
        enc_opt_str(v.error) + (enc_u64(v.started_at) + enc_opt_u64(v.finished_at)),
    );
    lemma_parse_opt_str(s, b, v.output);
    let c = b + enc_opt_str(v.output).len() as int;
    lemma_split_region(
        s,
        c,
        enc_opt_str(v.error),
        enc_u64(v.started_at) + enc_opt_u64(v.finished_at),
    );
    lemma_parse_opt_str(s, c, v.error);
    let d = c + enc_opt_str(v.error).len() as int;
    lemma_split_region(s, d, enc_u64(v.started_at), enc_opt_u64(v.finished_at));
    lemma_parse_u64(s, d, v.started_at);
    let e = d + enc_u64(v.started_at).len() as int;
    lemma_parse_opt_u64(s, e, v.finished_at);
}

/// The encoding of step result items, in order.
pub open spec fn enc_result_items(items: Seq<StepResultV>) -> Seq<char>
    decreases items.len(),
{
    if items.len() == 0 {
        Seq::empty()
    } else {
        enc_result(items[0]) + enc_result_items(items.drop_first())
    }
}

/// The encoding of a list of step result: its count, then its items.
pub open spec fn enc_result_list(items: Seq<StepResultV>) -> Seq<char> {
    enc_u64(items.len() as u64) + enc_result_items(items)
}

/// Reads `count` step result items.
pub open spec fn parse_result_items(s: Seq<char>, i: int, count: u64) -> Option<(Seq<StepResultV>, int)>
    decreases count,
{
    if count == 0 {
        Option::Some((Seq::empty(), i))
    } else {
        match parse_result(s, i) {
            Option::Some((v, j)) => match parse_result_items(s, j, (count - 1) as u64) {
                Option::Some((vs, k)) => Option::Some((seq![v] + vs, k)),
                Option::None => Option::None,
            },
            Option::None => Option::None,
        }
    }
}

/// Reads a list of step result.
pub open spec fn parse_result_list(s: Seq<char>, i: int) -> Option<(Seq<StepResultV>, int)> {
    match parse_u64(s, i) {
        Option::Some((n, j)) => parse_result_items(s, j, n),
        Option::None => Option::None,
    }
}

/// Whether a list of step result is encodable.
pub open spec fn result_list_ok(items: Seq<StepResultV>) -> bool {
    items.len() <= u64::MAX && forall|j: int| 0 <= j < items.len() ==> result_ok(#[trigger] items[j])
}

/// Parsing encoded step result items yields them back.
pub proof fn lemma_parse_result_items(s: Seq<char>, i: int, items: Seq<StepResultV>)
    requires
        0 <= i,
        items.len() <= u64::MAX,
        forall|j: int| 0 <= j < items.len() ==> result_ok(#[trigger] items[j]),
        i + enc_result_items(items).len() <= s.len(),
        s.subrange(i, i + enc_result_items(items).len() as int) == enc_result_items(items),
    ensures
        parse_result_items(s, i, items.len() as u64) == Option::Some(
            (items, i + enc_result_items(items).len() as int),
        ),
    decreases items.len(),
{
    if items.len() > 0 {
        let h = items[0];
        let rest = items.drop_first();
        lemma_split_region(s, i, enc_result(h), enc_result_items(rest));
        lemma_parse_result(s, i, h);
        let j = i + enc_result(h).len() as int;
        assert forall|k: int| 0 <= k < rest.len() implies result_ok(#[trigger] rest[k]) by {
            assert(rest[k] == items[k + 1]);
        }
        lemma_parse_result_items(s, j, rest);
        assert(seq![h] + rest =~= items);
    }
}

/// Parsing an encoded list of step result yields it back.
pub proof fn lemma_parse_result_list(s: Seq<char>, i: int, items: Seq<StepResultV>)
    requires
        0 <= i,
        result_list_ok(items),
        i + enc_result_list(items).len() <= s.len(),
        s.subrange(i, i + enc_result_list(items).len() as int) == enc_result_list(items),
    ensures
        parse_result_list(s, i) == Option::Some((items, i + enc_result_list(items).len() as int)),
{
    lemma_split_region(s, i, enc_u64(items.len() as u64), enc_result_items(items));
    lemma_parse_u64(s, i, items.len() as u64);
    lemma_parse_result_items(s, i + enc_u64(items.len() as u64).len() as int, items);
}

/// The encoding of a task run.
pub open spec fn enc_run(v: TaskRunV) -> Seq<char> {
    enc_u64(v.started_at) + (enc_opt_u64(v.finished_at) + (enc_run_status(v.status)
        + enc_result_list(v.step_results)))
}

/// Reads a task run.
pub open spec fn parse_run(s: Seq<char>, i: int) -> Option<(TaskRunV, int)> {
    match parse_u64(s, i) {
        Option::Some((started_at, a)) => match parse_opt_u64(s, a) {
            Option::Some((finished_at, b)) => match parse_run_status(s, b) {
                Option::Some((status, c)) => match parse_result_list(s, c) {
                    Option::Some((step_results, d)) => Option::Some(
                        (TaskRunV { started_at, finished_at, status, step_results }, d),
                    ),
                    Option::None => Option::None,
                },
                Option::None => Option::None,
            },
            Option::None => Option::None,
        },
        Option::None => Option::None,
    }
}

/// Whether a task run is encodable.
pub open spec fn run_ok(v: TaskRunV) -> bool {
    result_list_ok(v.step_results)
}

/// Parsing an encoded task run yields it back.
pub proof fn lemma_parse_run(s: Seq<char>, i: int, v: TaskRunV)
    requires
        0 <= i,
        run_ok(v),
        i + enc_run(v).len() <= s.len(),
        s.subrange(i, i + enc_run(v).len() as int) == enc_run(v),
    ensures
        parse_run(s, i) == Option::Some((v, i + enc_run(v).len() as int)),
{
    lemma_split_region(
        s,
        i,
        enc_u64(v.started_at),
        enc_opt_u64(v.finished_at) + (enc_run_status(v.status) + enc_result_list(v.step_results)),
    );
    lemma_parse_u64(s, i, v.started_at);
    let a = i + enc_u64(v.started_at).len() as int;
    lemma_split_region(
        s,
        a,
        enc_opt_u64(v.finished_at),
        enc_run_status(v.status) + enc_result_list(v.step_results),
    );
    lemma_parse_opt_u64(s, a, v.finished_at);
    let b = a + enc_opt_u64(v.finished_at).len() as int;
    lemma_split_region(s, b, enc_run_status(v.status), enc_result_list(v.step_results));
    lemma_parse_run_status(s, b, v.status);
    let c = b + enc_run_status(v.status).len() as int;
    lemma_parse_result_list(s, c, v.step_results);
}

/// The encoding of an optional task run.
pub open spec fn enc_opt_run(o: Option<TaskRunV>) -> Seq<char> {
    match o {
        Option::None => seq!['0'],
        Option::Some(v) => seq!['1'] + enc_run(v),
    }
}

/// Reads an optional task run.
pub open spec fn parse_opt_run(s: Seq<char>, i: int) -> Option<(Option<TaskRunV>, int)> {
    if 0 <= i < s.len() {
        if s[i] == '0' {
            Option::Some((Option::None, i + 1))
        } else if s[i] == '1' {
            match parse_run(s, i + 1) {
                Option::Some((v, j)) => Option::Some((Option::Some(v), j)),
                Option::None => Option::None,
            }
        } else {
            Option::None
        }
    } else {
        Option::None
    }
}

/// Whether an optional task run is encodable.
pub open spec fn opt_run_ok(o: Option<TaskRunV>) -> bool {
    match o {
        Option::None => true,
        Option::Some(v) => run_ok(v),
    }
}

/// Parsing an encoded optional task run yields it back.
pub proof fn lemma_parse_opt_run(s: Seq<char>, i: int, o: Option<TaskRunV>)
    requires
        0 <= i,
        opt_run_ok(o),
        i + enc_opt_run(o).len() <= s.len(),
        s.subrange(i, i + enc_opt_run(o).len() as int) == enc_opt_run(o),
    ensures
        parse_opt_run(s, i) == Option::Some((o, i + enc_opt_run(o).len() as int)),
{
    assert(s[i] == enc_opt_run(o)[0]);
    match o {
        Option::None => {},
        Option::Some(v) => {
            lemma_split_region(s, i, seq!['1'], enc_run(v));
            lemma_parse_run(s, i + 1, v);
        },
    }
}

/// The encoding of task run items, in order.
pub open spec fn enc_run_items(items: Seq<TaskRunV>) -> Seq<char>
    decreases items.len(),
{
    if items.len() == 0 {
        Seq::empty()
    } else {
        enc_run(items[0]) + enc_run_items(items.drop_first())
    }
}

/// The encoding of a list of task run: its count, then its items.
pub open spec fn enc_run_list(items: Seq<TaskRunV>) -> Seq<char> {
    enc_u64(items.len() as u64) + enc_run_items(items)
}

/// Reads `count` task run items.
pub open spec fn parse_run_items(s: Seq<char>, i: int, count: u64) -> Option<(Seq<TaskRunV>, int)>
    decreases count,
{
    if count == 0 {
        Option::Some((Seq::empty(), i))
    } else {
        match parse_run(s, i) {
            Option::Some((v, j)) => match parse_run_items(s, j, (count - 1) as u64) {
                Option::Some((vs, k)) => Option::Some((seq![v] + vs, k)),
                Option::None => Option::None,
            },
            Option::None => Option::None,
        }
    }
}

/// Reads a list of task run.
pub open spec fn parse_run_list(s: Seq<char>, i: int) -> Option<(Seq<TaskRunV>, int)> {
    match parse_u64(s, i) {
        Option::Some((n, j)) => parse_run_items(s, j, n),
        Option::None => Option::None,
    }
}

/// Whether a list of task run is encodable.
pub open spec fn run_list_ok(items: Seq<TaskRunV>) -> bool {
    items.len() <= u64::MAX && forall|j: int| 0 <= j < items.len() ==> run_ok(#[trigger] items[j])
}

/// Parsing encoded task run items yields them back.
pub proof fn lemma_parse_run_items(s: Seq<char>, i: int, items: Seq<TaskRunV>)
    requires
        0 <= i,
        items.len() <= u64::MAX,
        forall|j: int| 0 <= j < items.len() ==> run_ok(#[trigger] items[j]),
        i + enc_run_items(items).len() <= s.len(),
        s.subrange(i, i + enc_run_items(items).len() as int) == enc_run_items(items),
    ensures
        parse_run_items(s, i, items.len() as u64) == Option::Some(
            (items, i + enc_run_items(items).len() as int),
        ),
    decreases items.len(),
{
    if items.len() > 0 {
        let h = items[0];
        let rest = items.drop_first();
        lemma_split_region(s, i, enc_run(h), enc_run_items(rest));
        lemma_parse_run(s, i, h);
        let j = i + enc_run(h).len() as int;
        assert forall|k: int| 0 <= k < rest.len() implies run_ok(#[trigger] rest[k]) by {
            assert(rest[k] == items[k + 1]);
        }
        lemma_parse_run_items(s, j, rest);
        assert(seq![h] + rest =~= items);
    }
}

/// Parsing an encoded list of task run yields it back.
pub proof fn lemma_parse_run_list(s: Seq<char>, i: int, items: Seq<TaskRunV>)
    requires
        0 <= i,
        run_list_ok(items),
        i + enc_run_list(items).len() <= s.len(),
        s.subrange(i, i + enc_run_list(items).len() as int) == enc_run_list(items),
    ensures
        parse_run_list(s, i) == Option::Some((items, i + enc_run_list(items).len() as int)),
{
    lemma_split_region(s, i, enc_u64(items.len() as u64), enc_run_items(items));
    lemma_parse_u64(s, i, items.len() as u64);
    lemma_parse_run_items(s, i + enc_u64(items.len() as u64).len() as int, items);
}


/// The tail of a task's encoding after its four leading strings.
pub open spec fn enc_task_tail(v: TaskV) -> Seq<char> {
    enc_str(v.cron_expression) + (enc_opt_str(v.project_id) + (enc_bool(v.enabled) + (
    enc_step_list(v.steps) + (enc_failure(v.on_failure) + (enc_opt_run(v.last_run) + (enc_opt_u64(
        v.next_run,
    ) + (enc_u64(v.created_at) + enc_u64(v.updated_at))))))))
}

/// The encoding of a task: its strings, then everything else.
pub open spec fn enc_task(v: TaskV) -> Seq<char> {
    enc_str(v.id) + (enc_str(v.name) + (enc_str(v.description) + (enc_str(v.schedule)
        + enc_task_tail(v))))
}

/// Reads the tail of a task after its four leading strings.
pub open spec fn parse_task_tail(s: Seq<char>, i: int) -> Option<
    (
        (
            Seq<char>,
            Option<Seq<char>>,
            bool,
            Seq<StepV>,
            FailureAction,
            Option<TaskRunV>,
            Option<u64>,
            u64,
            u64,
        ),
        int,
    ),
> {
    match parse_str(s, i) {
        Option::Some((cron_expression, a)) => match parse_opt_str(s, a) {
            Option::Some((project_id, b)) => match parse_bool(s, b) {
                Option::Some((enabled, c)) => match parse_step_list(s, c) {
                    Option::Some((steps, d)) => match parse_failure(s, d) {
                        Option::Some((on_failure, e)) => match parse_opt_run(s, e) {
                            Option::Some((last_run, f)) => match parse_opt_u64(s, f) {
                                Option::Some((next_run, g)) => match parse_u64(s, g) {
                                    Option::Some((created_at, h)) => match parse_u64(s, h) {
                                        Option::Some((updated_at, w)) => Option::Some(
                                            (
                                                (
                                                    cron_expression,
                                                    project_id,
                                                    enabled,
                                                    steps,
                                                    on_failure,
                                                    last_run,
                                                    next_run,
                                                    created_at,
                                                    updated_at,
                                                ),
                                                w,
                                            ),
                                        ),
                                        Option::None => Option::None,
                                    },
                                    Option::None => Option::None,
                                },
                                Option::None => Option::None,
                            },
                            Option::None => Option::None,
                        },
                        Option::None => Option::None,
                    },
                    Option::None => Option::None,
                },
                Option::None => Option::None,
            },
            Option::None => Option::None,
        },
        Option::None => Option::None,
    }
}

/// Reads a task.
pub open spec fn parse_task(s: Seq<char>, i: int) -> Option<(TaskV, int)> {
    match parse_str(s, i) {
        Option::Some((id, a)) => match parse_str(s, a) {
            Option::Some((name, b)) => match parse_str(s, b) {
                Option::Some((description, c)) => match parse_str(s, c) {
                    Option::Some((schedule, d)) => match parse_task_tail(s, d) {
                        Option::Some((tail, w)) => Option::Some(
                            (
                                TaskV {
                                    id,
                                    name,
                                    description,
                                    schedule,
                                    cron_expression: tail.0,
                                    project_id: tail.1,
                                    enabled: tail.2,
                                    steps: tail.3,
                                    on_failure: tail.4,
                                    last_run: tail.5,
                                    next_run: tail.6,
                                    created_at: tail.7,
                                    updated_at: tail.8,
                                },
                                w,
                            ),
                        ),
                        Option::None => Option::None,
                    },
                    Option::None => Option::None,
                },
                Option::None => Option::None,
            },
            Option::None => Option::None,
        },
        Option::None => Option::None,
    }
}

/// Whether a task is encodable.
pub open spec fn task_ok(v: TaskV) -> bool {
    &&& v.id.len() <= u64::MAX
    &&& v.name.len() <= u64::MAX
    &&& v.description.len() <= u64::MAX
    &&& v.schedule.len() <= u64::MAX
    &&& v.cron_expression.len() <= u64::MAX
    &&& opt_str_ok(v.project_id)
    &&& step_list_ok(v.steps)
    &&& opt_run_ok(v.last_run)
}

/// Parsing an encoded task tail yields its fields back.
#[verifier::rlimit(100)]
#[verifier::spinoff_prover]
pub proof fn lemma_parse_task_tail(s: Seq<char>, i: int, v: TaskV)
    requires
        0 <= i,
        task_ok(v),
        i + enc_task_tail(v).len() <= s.len(),
        s.subrange(i, i + enc_task_tail(v).len() as int) == enc_task_tail(v),
    ensures
        parse_task_tail(s, i) == Option::Some(
            (
                (
                    v.cron_expression,
                    v.project_id,
                    v.enabled,
                    v.steps,
                    v.on_failure,
                    v.last_run,
                    v.next_run,
                    v.created_at,
                    v.updated_at,
                ),
                i + enc_task_tail(v).len() as int,
            ),
        ),
{
    lemma_split_region(
        s,
        i,
        enc_str(v.cron_expression),
        enc_opt_str(v.project_id) + (enc_bool(v.enabled) + (enc_step_list(v.steps) + (
        enc_failure(v.on_failure) + (enc_opt_run(v.last_run) + (enc_opt_u64(v.next_run) + (
        enc_u64(v.created_at) + enc_u64(v.updated_at))))))),
    );
    lemma_parse_str(s, i, v.cron_expression);
    let a = i + enc_str(v.cron_expression).len() as int;
    lemma_split_region(
        s,
        a,
        enc_opt_str(v.project_id),
        enc_bool(v.enabled) + (enc_step_list(v.steps) + (enc_failure(v.on_failure) + (
        enc_opt_run(v.last_run) + (enc_opt_u64(v.next_run) + (enc_u64(v.created_at) + enc_u64(
            v.updated_at,
        )))))),
    );
    lemma_parse_opt_str(s, a, v.project_id);
    let b = a + enc_opt_str(v.project_id).len() as int;
    lemma_split_region(
        s,
        b,
        enc_bool(v.enabled),
        enc_step_list(v.steps) + (enc_failure(v.on_failure) + (enc_opt_run(v.last_run) + (
        enc_opt_u64(v.next_run) + (enc_u64(v.created_at) + enc_u64(v.updated_at))))),
    );
    lemma_parse_bool(s, b, v.enabled);
    let c = b + enc_bool(v.enabled).len() as int;
    lemma_split_region(
        s,
        c,
        enc_step_list(v.steps),
        enc_failure(v.on_failure) + (enc_opt_run(v.last_run) + (enc_opt_u64(v.next_run) + (
        enc_u64(v.created_at) + enc_u64(v.updated_at)))),
    );
    lemma_parse_step_list(s, c, v.steps);
    let d = c + enc_step_list(v.steps).len() as int;
    lemma_split_region(
        s,
        d,
        enc_failure(v.on_failure),
        enc_opt_run(v.last_run) + (enc_opt_u64(v.next_run) + (enc_u64(v.created_at) + enc_u64(
            v.updated_at,
        ))),
    );
    lemma_parse_failure(s, d, v.on_failure);
    let e = d + enc_failure(v.on_failure).len() as int;
    lemma_split_region(
        s,
        e,
        enc_opt_run(v.last_run),
        enc_opt_u64(v.next_run) + (enc_u64(v.created_at) + enc_u64(v.updated_at)),
    );
    lemma_parse_opt_run(s, e, v.last_run);
    let f = e + enc_opt_run(v.last_run).len() as int;
    lemma_split_region(
        s,
        f,
        enc_opt_u64(v.next_run),
        enc_u64(v.created_at) + enc_u64(v.updated_at),
    );
    lemma_parse_opt_u64(s, f, v.next_run);
    let g = f + enc_opt_u64(v.next_run).len() as int;
    lemma_split_region(s, g, enc_u64(v.created_at), enc_u64(v.updated_at));
    lemma_parse_u64(s, g, v.created_at);
    let h = g + enc_u64(v.created_at).len() as int;
    lemma_parse_u64(s, h, v.updated_at);
}

/// Parsing an encoded task yields it back.
#[verifier::rlimit(100)]
#[verifier::spinoff_prover]
pub proof fn lemma_parse_task(s: Seq<char>, i: int, v: TaskV)
    requires
        0 <= i,
        task_ok(v),
        i + enc_task(v).len() <= s.len(),
        s.subrange(i, i + enc_task(v).len() as int) == enc_task(v),
    ensures
        parse_task(s, i) == Option::Some((v, i + enc_task(v).len() as int)),
{
    lemma_split_region(
        s,
        i,
        enc_str(v.id),
        enc_str(v.name) + (enc_str(v.description) + (enc_str(v.schedule) + enc_task_tail(v))),
    );
    lemma_parse_str(s, i, v.id);
    let a = i + enc_str(v.id).len() as int;
    lemma_split_region(
        s,
        a,
        enc_str(v.name),
        enc_str(v.description) + (enc_str(v.schedule) + enc_task_tail(v)),
    );
    lemma_parse_str(s, a, v.name);
    let b = a + enc_str(v.name).len() as int;
    lemma_split_region(s, b, enc_str(v.description), enc_str(v.schedule) + enc_task_tail(v));
    lemma_parse_str(s, b, v.description);
    let c = b + enc_str(v.description).len() as int;
    lemma_split_region(s, c, enc_str(v.schedule), enc_task_tail(v));
    lemma_parse_str(s, c, v.schedule);
    let d = c + enc_str(v.schedule).len() as int;
    lemma_parse_task_tail(s, d, v);
    assert(parse_task(s, i) == Option::Some((v, i + enc_task(v).len() as int)));
}

/// The encoding of task items, in order.
pub open spec fn enc_task_items(items: Seq<TaskV>) -> Seq<char>
    decreases items.len(),
{
    if items.len() == 0 {
        Seq::empty()
    } else {
        enc_task(items[0]) + enc_task_items(items.drop_first())
    }
}

/// The encoding of a list of task: its count, then its items.
pub open spec fn enc_task_list(items: Seq<TaskV>) -> Seq<char> {
    enc_u64(items.len() as u64) + enc_task_items(items)
}

/// Reads `count` task items.
pub open spec fn parse_task_items(s: Seq<char>, i: int, count: u64) -> Option<(Seq<TaskV>, int)>
    decreases count,
{
    if count == 0 {
        Option::Some((Seq::empty(), i))
    } else {
        match parse_task(s, i) {
            Option::Some((v, j)) => match parse_task_items(s, j, (count - 1) as u64) {
                Option::Some((vs, k)) => Option::Some((seq![v] + vs, k)),
                Option::None => Option::None,
            },
            Option::None => Option::None,
        }
    }
}

/// Reads a list of task.
pub open spec fn parse_task_list(s: Seq<char>, i: int) -> Option<(Seq<TaskV>, int)> {
    match parse_u64(s, i) {
        Option::Some((n, j)) => parse_task_items(s, j, n),
        Option::None => Option::None,
    }
}

/// Whether a list of task is encodable.
pub open spec fn task_list_ok(items: Seq<TaskV>) -> bool {
    items.len() <= u64::MAX && forall|j: int| 0 <= j < items.len() ==> task_ok(#[trigger] items[j])
}

/// Parsing encoded task items yields them back.
#[verifier::rlimit(100)]
#[verifier::spinoff_prover]
pub proof fn lemma_parse_task_items(s: Seq<char>, i: int, items: Seq<TaskV>)
    requires
        0 <= i,
        items.len() <= u64::MAX,
        forall|j: int| 0 <= j < items.len() ==> task_ok(#[trigger] items[j]),
        i + enc_task_items(items).len() <= s.len(),
        s.subrange(i, i + enc_task_items(items).len() as int) == enc_task_items(items),
    ensures
        parse_task_items(s, i, items.len() as u64) == Option::Some(
            (items, i + enc_task_items(items).len() as int),
        ),
    decreases items.len(),
{
    if items.len() > 0 {
        let h = items[0];
        let rest = items.drop_first();
        lemma_split_region(s, i, enc_task(h), enc_task_items(rest));
        lemma_parse_task(s, i, h);
        let j = i + enc_task(h).len() as int;
        assert forall|k: int| 0 <= k < rest.len() implies task_ok(#[trigger] rest[k]) by {
            assert(rest[k] == items[k + 1]);
        }
        lemma_parse_task_items(s, j, rest);
        assert(seq![h] + rest =~= items);
    }
}

/// Parsing an encoded list of task yields it back.
pub proof fn lemma_parse_task_list(s: Seq<char>, i: int, items: Seq<TaskV>)
    requires
        0 <= i,
        task_list_ok(items),
        i + enc_task_list(items).len() <= s.len(),
        s.subrange(i, i + enc_task_list(items).len() as int) == enc_task_list(items),
    ensures
        parse_task_list(s, i) == Option::Some((items, i + enc_task_list(items).len() as int)),
{
    lemma_split_region(s, i, enc_u64(items.len() as u64), enc_task_items(items));
    lemma_parse_u64(s, i, items.len() as u64);
    lemma_parse_task_items(s, i + enc_u64(items.len() as u64).len() as int, items);
}

/// The encoding of one task's history.
pub open spec fn enc_hist(v: TaskHistoryV) -> Seq<char> {
    enc_str(v.task_id) + enc_run_list(v.runs)
}

/// Reads one task's history.
pub open spec fn parse_hist(s: Seq<char>, i: int) -> Option<(TaskHistoryV, int)> {
    match parse_str(s, i) {
        Option::Some((task_id, a)) => match parse_run_list(s, a) {
            Option::Some((runs, b)) => Option::Some((TaskHistoryV { task_id, runs }, b)),
            Option::None => Option::None,
        },
        Option::None => Option::None,
    }
}

/// Whether one task's history is encodable.
pub open spec fn hist_ok(v: TaskHistoryV) -> bool {
    v.task_id.len() <= u64::MAX && run_list_ok(v.runs)
}

/// Parsing an encoded history entry yields it back.
pub proof fn lemma_parse_hist(s: Seq<char>, i: int, v: TaskHistoryV)
    requires
        0 <= i,
        hist_ok(v),
        i + enc_hist(v).len() <= s.len(),
        s.subrange(i, i + enc_hist(v).len() as int) == enc_hist(v),
    ensures
        parse_hist(s, i) == Option::Some((v, i + enc_hist(v).len() as int)),
{
    lemma_split_region(s, i, enc_str(v.task_id), enc_run_list(v.runs));
    lemma_parse_str(s, i, v.task_id);
    lemma_parse_run_list(s, i + enc_str(v.task_id).len() as int, v.runs);
}

/// The encoding of history entry items, in order.
pub open spec fn enc_hist_items(items: Seq<TaskHistoryV>) -> Seq<char>
    decreases items.len(),
{
    if items.len() == 0 {
        Seq::empty()
    } else {
        enc_hist(items[0]) + enc_hist_items(items.drop_first())
    }
}

/// The encoding of a list of history entry: its count, then its items.
pub open spec fn enc_hist_list(items: Seq<TaskHistoryV>) -> Seq<char> {
    enc_u64(items.len() as u64) + enc_hist_items(items)
}

/// Reads `count` history entry items.
pub open spec fn parse_hist_items(s: Seq<char>, i: int, count: u64) -> Option<(Seq<TaskHistoryV>, int)>
    decreases count,
{
    if count == 0 {
        Option::Some((Seq::empty(), i))
    } else {
        match parse_hist(s, i) {
            Option::Some((v, j)) => match parse_hist_items(s, j, (count - 1) as u64) {
                Option::Some((vs, k)) => Option::Some((seq![v] + vs, k)),
                Option::None => Option::None,
            },
            Option::None => Option::None,
        }
    }
}

/// Reads a list of history entry.
pub open spec fn parse_hist_list(s: Seq<char>, i: int) -> Option<(Seq<TaskHistoryV>, int)> {
    match parse_u64(s, i) {
        Option::Some((n, j)) => parse_hist_items(s, j, n),
        Option::None => Option::None,
    }
}

/// Whether a list of history entry is encodable.
pub open spec fn hist_list_ok(items: Seq<TaskHistoryV>) -> bool {
    items.len() <= u64::MAX && forall|j: int| 0 <= j < items.len() ==> hist_ok(#[trigger] items[j])
}

/// Parsing encoded history entry items yields them back.
pub proof fn lemma_parse_hist_items(s: Seq<char>, i: int, items: Seq<TaskHistoryV>)
    requires
        0 <= i,
        items.len() <= u64::MAX,
        forall|j: int| 0 <= j < items.len() ==> hist_ok(#[trigger] items[j]),
        i + enc_hist_items(items).len() <= s.len(),
        s.subrange(i, i + enc_hist_items(items).len() as int) == enc_hist_items(items),
    ensures
        parse_hist_items(s, i, items.len() as u64) == Option::Some(
            (items, i + enc_hist_items(items).len() as int),
        ),
    decreases items.len(),
{
    if items.len() > 0 {
        let h = items[0];
        let rest = items.drop_first();
        lemma_split_region(s, i, enc_hist(h), enc_hist_items(rest));
        lemma_parse_hist(s, i, h);
        let j = i + enc_hist(h).len() as int;
        assert forall|k: int| 0 <= k < rest.len() implies hist_ok(#[trigger] rest[k]) by {
            assert(rest[k] == items[k + 1]);
        }
        lemma_parse_hist_items(s, j, rest);
        assert(seq![h] + rest =~= items);
    }
}

/// Parsing an encoded list of history entry yields it back.
pub proof fn lemma_parse_hist_list(s: Seq<char>, i: int, items: Seq<TaskHistoryV>)
    requires
        0 <= i,
        hist_list_ok(items),
        i + enc_hist_list(items).len() <= s.len(),
        s.subrange(i, i + enc_hist_list(items).len() as int) == enc_hist_list(items),
    ensures
        parse_hist_list(s, i) == Option::Some((items, i + enc_hist_list(items).len() as int)),
{
    lemma_split_region(s, i, enc_u64(items.len() as u64), enc_hist_items(items));
    lemma_parse_u64(s, i, items.len() as u64);
    lemma_parse_hist_items(s, i + enc_u64(items.len() as u64).len() as int, items);
}

/// The encoding of the whole store: its tasks, then its histories.
pub open spec fn enc_store(v: crate::store::StoreV) -> Seq<char> {
    enc_task_list(v.tasks) + enc_hist_list(v.history)
}

/// Reads the whole store.
pub open spec fn parse_store(s: Seq<char>, i: int) -> Option<(crate::store::StoreV, int)> {
    match parse_task_list(s, i) {
        Option::Some((tasks, a)) => match parse_hist_list(s, a) {
            Option::Some((history, b)) => Option::Some(
                (crate::store::StoreV { tasks, history }, b),
            ),
            Option::None => Option::None,
        },
        Option::None => Option::None,
    }
}

/// Whether a store is encodable: every length in it fits the format.
pub open spec fn store_ok(v: crate::store::StoreV) -> bool {
    task_list_ok(v.tasks) && hist_list_ok(v.history)
}

/// What a whole document means: a store that consumes it exactly, or
/// nothing — and nothing means the reader falls back to an empty store.
pub open spec fn parse_store_doc(s: Seq<char>) -> Option<crate::store::StoreV> {
    match parse_store(s, 0) {
        Option::Some((v, j)) => if j == s.len() {
            Option::Some(v)
        } else {
            Option::None
        },
        Option::None => Option::None,
    }
}

/// The round trip: reading back an encoded store reproduces the same
/// tasks and histories, exactly.
pub proof fn lemma_store_round_trip(v: crate::store::StoreV)
    requires
        store_ok(v),
    ensures
        parse_store_doc(enc_store(v)) == Option::Some(v),
{
    let s = enc_store(v);
    lemma_split_region(s, 0, enc_task_list(v.tasks), enc_hist_list(v.history));
    assert(s.subrange(0, s.len() as int) =~= s);
    lemma_parse_task_list(s, 0, v.tasks);
    lemma_parse_hist_list(s, enc_task_list(v.tasks).len() as int, v.history);
}


/// Writes a number's encoding.
fn put_u64_enc(out: &mut String, n: u64)
    ensures
        final(out)@ == old(out)@ + enc_u64(n),
{
    let mut m: u64 = n;
    loop
        invariant_except_break
            out@ + le_digits(m) == old(out)@ + le_digits(n),
        ensures
            out@ == old(out)@ + le_digits(n),
        decreases m,
    {
        let ghost before = out@;
        out.push(digit_to_char(m % 10));
        proof {
            if m >= 10 {
                assert(le_digits(m) == seq![digit_char((m % 10) as nat)] + le_digits(m / 10));
                assert(out@ + le_digits(m / 10) =~= before + le_digits(m));
            } else {
                assert(le_digits(m) == seq![digit_char(m as nat)]);
                assert(out@ =~= before + le_digits(m));
            }
        }
        if m < 10 {
            break;
        }
        m = m / 10;
    }
    out.push('.');
    proof {
        assert(out@ =~= old(out)@ + enc_u64(n));
    }
}

/// Reads a number's encoding.
fn get_u64_enc(s: &Vec<char>, i: usize) -> (r: Option<(u64, usize)>)
    ensures
        (match r {
            Option::Some((n, j)) => parse_u64(s@, i as int) == Option::Some((n, j as int)) && i
                < j <= s@.len(),
            Option::None => parse_u64(s@, i as int) is None,
        }),
    decreases s@.len() - i,
{
    if i >= s.len() {
        return Option::None;
    }
    let c = s[i];
    if c == '.' {
        return Option::Some((0u64, i + 1));
    }
    match char_digit_val(c) {
        Option::Some(d) => match get_u64_enc(s, i + 1) {
            Option::Some((rest, j)) => match rest.checked_mul(10) {
                Option::Some(x) => match x.checked_add(d) {
                    Option::Some(n) => Option::Some((n, j)),
                    Option::None => Option::None,
                },
                Option::None => Option::None,
            },
            Option::None => Option::None,
        },
        Option::None => Option::None,
    }
}

/// Writes a string's encoding.
fn put_str_enc(out: &mut String, t: &str)
    ensures
        final(out)@ == old(out)@ + enc_str(t@),
{
    let n = t.unicode_len();
    put_u64_enc(out, n as u64);
    out.append(t);
    proof {
        assert(out@ =~= old(out)@ + enc_str(t@));
    }
}

/// Reads a string's encoding.
fn get_str_enc(s: &Vec<char>, i: usize) -> (r: Option<(String, usize)>)
    ensures
        (match r {
            Option::Some((t, j)) => parse_str(s@, i as int) == Option::Some((t@, j as int)) && j
                <= s@.len(),
            Option::None => parse_str(s@, i as int) is None,
        }),
{
    let n = match get_u64_enc(s, i) {
        Option::Some(p) => p,
        Option::None => {
            return Option::None;
        },
    };
    let (count, j) = n;
    proof {
        assert(j <= s@.len());
    }
    if count > (s.len() - j) as u64 {
        return Option::None;
    }
    let take_n = count as usize;
    proof {
        assert(j + take_n <= s@.len());
        assert(s@.len() <= usize::MAX) by {
            assert(s@.len() == s.len());
        }
    }
    let mut t = String::new();
    let mut k: usize = 0;
    while k < take_n
        invariant
            k <= take_n,
            j + take_n <= s@.len(),
            s@.len() <= usize::MAX,
            t@ =~= s@.subrange(j as int, j as int + k as int),
        decreases take_n - k,
    {
        t.push(s[j + k]);
        proof {
            assert(t@ =~= s@.subrange(j as int, j as int + k as int + 1));
        }
        k = k + 1;
    }
    proof {
        assert(t@ =~= s@.subrange(j as int, j as int + take_n as int));
    }
    Option::Some((t, j + take_n))
}

/// Writes a boolean's encoding.
fn put_bool_enc(out: &mut String, b: bool)
    ensures
        final(out)@ == old(out)@ + enc_bool(b),
{
    if b {
        out.push('1');
    } else {
        out.push('0');
    }
    proof {
        assert(out@ =~= old(out)@ + enc_bool(b));
    }
}

/// Reads a boolean's encoding.
fn get_bool_enc(s: &Vec<char>, i: usize) -> (r: Option<(bool, usize)>)
    ensures
        (match r {
            Option::Some((b, j)) => parse_bool(s@, i as int) == Option::Some((b, j as int)) && j
                <= s@.len(),
            Option::None => parse_bool(s@, i as int) is None,
        }),
{
    if i >= s.len() {
        return Option::None;
    }
    let c = s[i];
    if c == '1' {
        Option::Some((true, i + 1))
    } else if c == '0' {
        Option::Some((false, i + 1))
    } else {
        Option::None
    }
}

/// Writes an optional number.
fn put_opt_u64_enc(out: &mut String, o: &Option<u64>)
    ensures
        final(out)@ == old(out)@ + enc_opt_u64(o.deep_view()),
{
    match o {
        Option::None => {
            out.push('0');
        },
        Option::Some(n) => {
            out.push('1');
            put_u64_enc(out, *n);
        },
    }
    proof {
        assert(out@ =~= old(out)@ + enc_opt_u64(o.deep_view()));
    }
}

/// Reads an optional number.
fn get_opt_u64_enc(s: &Vec<char>, i: usize) -> (r: Option<(Option<u64>, usize)>)
    ensures
        (match r {
            Option::Some((o, j)) => parse_opt_u64(s@, i as int) == Option::Some((o, j as int))
                && j <= s@.len(),
            Option::None => parse_opt_u64(s@, i as int) is None,
        }),
{
    if i >= s.len() {
        return Option::None;
    }
    let c = s[i];
    if c == '0' {
        Option::Some((Option::None, i + 1))
    } else if c == '1' {
        match get_u64_enc(s, i + 1) {
            Option::Some((n, j)) => Option::Some((Option::Some(n), j)),
            Option::None => Option::None,
        }
    } else {
        Option::None
    }
}

/// Writes an optional string.
fn put_opt_str_enc(out: &mut String, o: &Option<String>)
    ensures
        final(out)@ == old(out)@ + enc_opt_str(o.deep_view()),
{
    match o {
        Option::None => {
            out.push('0');
        },
        Option::Some(t) => {
            out.push('1');
            put_str_enc(out, t.as_str());
        },
    }
    proof {
        assert(out@ =~= old(out)@ + enc_opt_str(o.deep_view()));
    }
}

/// Reads an optional string.
fn get_opt_str_enc(s: &Vec<char>, i: usize) -> (r: Option<(Option<String>, usize)>)
    ensures
        (match r {
            Option::Some((o, j)) => parse_opt_str(s@, i as int) == Option::Some(
                (o.deep_view(), j as int),
            ) && j <= s@.len(),
            Option::None => parse_opt_str(s@, i as int) is None,
        }),
{
    if i >= s.len() {
        return Option::None;
    }
    let c = s[i];
    if c == '0' {
        Option::Some((Option::None, i + 1))
    } else if c == '1' {
        match get_str_enc(s, i + 1) {
            Option::Some((t, j)) => Option::Some((Option::Some(t), j)),
            Option::None => Option::None,
        }
    } else {
        Option::None
    }
}


/// Writes an executor tag.
fn put_executor_enc(out: &mut String, x: &Executor)
    ensures
        final(out)@ == old(out)@ + enc_executor(*x),
{
    match x {
        Executor::Local => out.push('0'),
        Executor::Web => out.push('1'),
        Executor::Ai => out.push('2'),
    }
    proof {
        assert(out@ =~= old(out)@ + enc_executor(*x));
    }
}

/// Reads an executor tag.
fn get_executor_enc(s: &Vec<char>, i: usize) -> (r: Option<(Executor, usize)>)
    ensures
        (match r {
            Option::Some((x, j)) => parse_executor(s@, i as int) == Option::Some((x, j as int))
                && j <= s@.len(),
            Option::None => parse_executor(s@, i as int) is None,
        }),
{
    if i >= s.len() {
        return Option::None;
    }
    let c = s[i];
    if c == '0' {
        Option::Some((Executor::Local, i + 1))
    } else if c == '1' {
        Option::Some((Executor::Web, i + 1))
    } else if c == '2' {
        Option::Some((Executor::Ai, i + 1))
    } else {
        Option::None
    }
}

/// Writes a step status tag.
fn put_step_status_enc(out: &mut String, x: &StepStatus)
    ensures
        final(out)@ == old(out)@ + enc_step_status(*x),
{
    match x {
        StepStatus::Pending => out.push('0'),
        StepStatus::Running => out.push('1'),
        StepStatus::Success => out.push('2'),
        StepStatus::Failed => out.push('3'),
        StepStatus::Skipped => out.push('4'),
    }
    proof {
        assert(out@ =~= old(out)@ + enc_step_status(*x));
    }
}

/// Reads a step status tag.
fn get_step_status_enc(s: &Vec<char>, i: usize) -> (r: Option<(StepStatus, usize)>)
    ensures
        (match r {
            Option::Some((x, j)) => parse_step_status(s@, i as int) == Option::Some(
                (x, j as int),
            ) && j <= s@.len(),
            Option::None => parse_step_status(s@, i as int) is None,
        }),
{
    if i >= s.len() {
        return Option::None;
    }
    let c = s[i];
    if c == '0' {
        Option::Some((StepStatus::Pending, i + 1))
    } else if c == '1' {
        Option::Some((StepStatus::Running, i + 1))
    } else if c == '2' {
        Option::Some((StepStatus::Success, i + 1))
    } else if c == '3' {
        Option::Some((StepStatus::Failed, i + 1))
    } else if c == '4' {
        Option::Some((StepStatus::Skipped, i + 1))
    } else {
        Option::None
    }
}

/// Writes a run status tag.
fn put_run_status_enc(out: &mut String, x: &RunStatus)
    ensures
        final(out)@ == old(out)@ + enc_run_status(*x),
{
    match x {
        RunStatus::Running => out.push('0'),
        RunStatus::Success => out.push('1'),
        RunStatus::PartialSuccess => out.push('2'),
        RunStatus::Failed => out.push('3'),
    }
    proof {
        assert(out@ =~= old(out)@ + enc_run_status(*x));
    }
}

/// Reads a run status tag.
fn get_run_status_enc(s: &Vec<char>, i: usize) -> (r: Option<(RunStatus, usize)>)
    ensures
        (match r {
            Option::Some((x, j)) => parse_run_status(s@, i as int) == Option::Some((x, j as int))
                && j <= s@.len(),
            Option::None => parse_run_status(s@, i as int) is None,
        }),
{
    if i >= s.len() {
        return Option::None;
    }
    let c = s[i];
    if c == '0' {
        Option::Some((RunStatus::Running, i + 1))
    } else if c == '1' {
        Option::Some((RunStatus::Success, i + 1))
    } else if c == '2' {
        Option::Some((RunStatus::PartialSuccess, i + 1))
    } else if c == '3' {
        Option::Some((RunStatus::Failed, i + 1))
    } else {
        Option::None
    }
}

/// Writes a failure policy.
fn put_failure_enc(out: &mut String, x: &FailureAction)
    ensures
        final(out)@ == old(out)@ + enc_failure(*x),
{
    match x {
        FailureAction::Stop => out.push('0'),
        FailureAction::SkipAndContinue => out.push('1'),
        FailureAction::Retry { max_attempts } => {
            out.push('2');
            put_u64_enc(out, *max_attempts as u64);
        },
    }
    proof {
        assert(out@ =~= old(out)@ + enc_failure(*x));
    }
}

/// Reads a failure policy.
fn get_failure_enc(s: &Vec<char>, i: usize) -> (r: Option<(FailureAction, usize)>)
    ensures
        (match r {
            Option::Some((x, j)) => parse_failure(s@, i as int) == Option::Some((x, j as int))
                && j <= s@.len(),
            Option::None => parse_failure(s@, i as int) is None,
        }),
{
    if i >= s.len() {
        return Option::None;
    }
    let c = s[i];
    if c == '0' {
        Option::Some((FailureAction::Stop, i + 1))
    } else if c == '1' {
        Option::Some((FailureAction::SkipAndContinue, i + 1))
    } else if c == '2' {
        match get_u64_enc(s, i + 1) {
            Option::Some((n, j)) => if n <= u32::MAX as u64 {
                Option::Some((FailureAction::Retry { max_attempts: n as u32 }, j))
            } else {
                Option::None
            },
            Option::None => Option::None,
        }
    } else {
        Option::None
    }
}

/// Writes one header pair.
fn put_pair(out: &mut String, p: &(String, String))
    ensures
        final(out)@ == old(out)@ + enc_pair(p.deep_view()),
{
    put_str_enc(out, p.0.as_str());
    put_str_enc(out, p.1.as_str());
    proof {
        assert(out@ =~= old(out)@ + enc_pair(p.deep_view()));
    }
}

/// Reads one header pair.
fn get_pair(s: &Vec<char>, i: usize) -> (r: Option<((String, String), usize)>)
    ensures
        (match r {
            Option::Some((p, j)) => parse_pair(s@, i as int) == Option::Some(
                (p.deep_view(), j as int),
            ) && j <= s@.len(),
            Option::None => parse_pair(s@, i as int) is None,
        }),
{
    match get_str_enc(s, i) {
        Option::Some((a, j)) => match get_str_enc(s, j) {
            Option::Some((b, k)) => Option::Some(((a, b), k)),
            Option::None => Option::None,
        },
        Option::None => Option::None,
    }
}

/// Writes the header pair items from `from` on.
fn put_pair_items(out: &mut String, v: &Vec<(String, String)>, from: usize)
    requires
        from <= v@.len(),
    ensures
        final(out)@ == old(out)@ + enc_pair_items(v.deep_view().skip(from as int)),
    decreases v@.len() - from,
{
    if from < v.len() {
        proof {
            assert(v.deep_view()[from as int] == v@[from as int].deep_view());
        }
        let ghost base = out@;
        put_pair(out, &v[from]);
        let ghost mid = out@;
        put_pair_items(out, v, from + 1);
        proof {
            let items = v.deep_view().skip(from as int);
            assert(items[0] == v.deep_view()[from as int]);
            assert(items.drop_first() =~= v.deep_view().skip(from as int + 1));
            assert(mid == base + enc_pair(v@[from as int].deep_view()));
            assert(out@ == mid + enc_pair_items(v.deep_view().skip(from as int + 1)));
            assert(enc_pair_items(items) == enc_pair(items[0]) + enc_pair_items(
                items.drop_first(),
            ));
            assert(out@ =~= old(out)@ + enc_pair_items(items));
        }
    } else {
        proof {
            assert(v.deep_view().skip(from as int) =~= Seq::<(Seq<char>, Seq<char>)>::empty());
            assert(out@ =~= old(out)@ + enc_pair_items(v.deep_view().skip(from as int)));
        }
    }
}

/// Writes a list of header pair.
fn put_pair_list(out: &mut String, v: &Vec<(String, String)>)
    ensures
        final(out)@ == old(out)@ + enc_pair_list(v.deep_view()),
{
    put_u64_enc(out, v.len() as u64);
    put_pair_items(out, v, 0);
    proof {
        assert(v.deep_view().skip(0) =~= v.deep_view());
        assert(out@ =~= old(out)@ + enc_pair_list(v.deep_view()));
    }
}

/// Reads `count` header pair items.
fn get_pair_items(s: &Vec<char>, i: usize, count: u64) -> (r: Option<(Vec<(String, String)>, usize)>)
    requires
        i <= s@.len(),
    ensures
        (match r {
            Option::Some((vs, j)) => parse_pair_items(s@, i as int, count) == Option::Some(
                (vs.deep_view(), j as int),
            ) && j <= s@.len(),
            Option::None => parse_pair_items(s@, i as int, count) is None,
        }),
    decreases count,
{
    if count == 0 {
        let vs: Vec<(String, String)> = Vec::new();
        proof {
            assert(vs.deep_view() =~= Seq::<(Seq<char>, Seq<char>)>::empty());
        }
        Option::Some((vs, i))
    } else {
        match get_pair(s, i) {
            Option::Some((v, j)) => match get_pair_items(s, j, count - 1) {
                Option::Some((mut vs, k)) => {
                    let ghost tail = vs.deep_view();
                    let ghost hv = v.deep_view();
                    vs.insert(0, v);
                    proof {
                        assert(vs.deep_view() =~= seq![hv] + tail);
                    }
                    Option::Some((vs, k))
                },
                Option::None => Option::None,
            },
            Option::None => Option::None,
        }
    }
}

/// Reads a list of header pair.
fn get_pair_list(s: &Vec<char>, i: usize) -> (r: Option<(Vec<(String, String)>, usize)>)
    ensures
        (match r {
            Option::Some((vs, j)) => parse_pair_list(s@, i as int) == Option::Some(
                (vs.deep_view(), j as int),
            ) && j <= s@.len(),
            Option::None => parse_pair_list(s@, i as int) is None,
        }),
{
    match get_u64_enc(s, i) {
        Option::Some((n, j)) => get_pair_items(s, j, n),
        Option::None => Option::None,
    }
}


/// Writes an optional header list.
fn put_opt_pairs_enc(out: &mut String, o: &Option<Vec<(String, String)>>)
    ensures
        final(out)@ == old(out)@ + enc_opt_pairs(o.deep_view()),
{
    match o {
        Option::None => {
            out.push('0');
        },
        Option::Some(ps) => {
            out.push('1');
            put_pair_list(out, ps);
        },
    }
    proof {
        assert(out@ =~= old(out)@ + enc_opt_pairs(o.deep_view()));
    }
}

/// Reads an optional header list.
fn get_opt_pairs_enc(s: &Vec<char>, i: usize) -> (r: Option<
    (Option<Vec<(String, String)>>, usize),
>)
    ensures
        (match r {
            Option::Some((o, j)) => parse_opt_pairs(s@, i as int) == Option::Some(
                (o.deep_view(), j as int),
            ) && j <= s@.len(),
            Option::None => parse_opt_pairs(s@, i as int) is None,
        }),
{
    if i >= s.len() {
        return Option::None;
    }
    let c = s[i];
    if c == '0' {
        Option::Some((Option::None, i + 1))
    } else if c == '1' {
        match get_pair_list(s, i + 1) {
            Option::Some((ps, j)) => Option::Some((Option::Some(ps), j)),
            Option::None => Option::None,
        }
    } else {
        Option::None
    }
}

/// Writes a step action.
fn put_action_enc(out: &mut String, a: &StepAction)
    ensures
        final(out)@ == old(out)@ + enc_action(a@),
{
    match a {
        StepAction::RunCommand { command, cwd } => {
            out.push('0');
            put_str_enc(out, command.as_str());
            put_opt_str_enc(out, cwd);
        },
        StepAction::BackupFiles { source, destination } => {
            out.push('1');
            put_str_enc(out, source.as_str());
            put_str_enc(out, destination.as_str());
        },
        StepAction::GitCommit { message } => {
            out.push('2');
            put_str_enc(out, message.as_str());
        },
        StepAction::GitPush { remote, branch } => {
            out.push('3');
            put_opt_str_enc(out, remote);
            put_opt_str_enc(out, branch);
        },
        StepAction::RunScript { path } => {
            out.push('4');
            put_str_enc(out, path.as_str());
        },
        StepAction::DeleteFiles { path, pattern } => {
            out.push('5');
            put_str_enc(out, path.as_str());
            put_str_enc(out, pattern.as_str());
        },
        StepAction::HttpRequest { url, method, headers, body } => {
            out.push('6');
            put_str_enc(out, url.as_str());
            put_str_enc(out, method.as_str());
            put_opt_pairs_enc(out, headers);
            put_opt_str_enc(out, body);
        },
        StepAction::DeployTrigger { provider, project_id } => {
            out.push('7');
            put_str_enc(out, provider.as_str());
            put_str_enc(out, project_id.as_str());
        },
        StepAction::SendWebhook { url, payload } => {
            out.push('8');
            put_str_enc(out, url.as_str());
            put_opt_str_enc(out, payload);
        },
        StepAction::GenerateContent { prompt, output_path } => {
            out.push('9');
            put_str_enc(out, prompt.as_str());
            put_opt_str_enc(out, output_path);
        },
        StepAction::AnalyzeAndAct { prompt } => {
            out.push('a');
            put_str_enc(out, prompt.as_str());
        },
    }
    proof {
        assert(out@ =~= old(out)@ + enc_action(a@));
    }
}

/// Reads a step action.
fn get_action_enc(s: &Vec<char>, i: usize) -> (r: Option<(StepAction, usize)>)
    ensures
        (match r {
            Option::Some((a, j)) => parse_action(s@, i as int) == Option::Some(
                (a@, j as int),
            ) && j <= s@.len(),
            Option::None => parse_action(s@, i as int) is None,
        }),
{
    if i >= s.len() {
        return Option::None;
    }
    let c = s[i];
    if c == '0' {
        match get_str_enc(s, i + 1) {
            Option::Some((command, j)) => match get_opt_str_enc(s, j) {
                Option::Some((cwd, k)) => Option::Some((StepAction::RunCommand { command, cwd }, k)),
                Option::None => Option::None,
            },
            Option::None => Option::None,
        }
    } else if c == '1' {
        match get_str_enc(s, i + 1) {
            Option::Some((source, j)) => match get_str_enc(s, j) {
                Option::Some((destination, k)) => Option::Some(
                    (StepAction::BackupFiles { source, destination }, k),
                ),
                Option::None => Option::None,
            },
            Option::None => Option::None,
        }
    } else if c == '2' {
        match get_str_enc(s, i + 1) {
            Option::Some((message, j)) => Option::Some((StepAction::GitCommit { message }, j)),
            Option::None => Option::None,
        }
    } else if c == '3' {
        match get_opt_str_enc(s, i + 1) {
            Option::Some((remote, j)) => match get_opt_str_enc(s, j) {
                Option::Some((branch, k)) => Option::Some(
                    (StepAction::GitPush { remote, branch }, k),
                ),
                Option::None => Option::None,
            },
            Option::None => Option::None,
        }
    } else if c == '4' {
        match get_str_enc(s, i + 1) {
            Option::Some((path, j)) => Option::Some((StepAction::RunScript { path }, j)),
            Option::None => Option::None,
        }
    } else if c == '5' {
        match get_str_enc(s, i + 1) {
            Option::Some((path, j)) => match get_str_enc(s, j) {
                Option::Some((pattern, k)) => Option::Some(
                    (StepAction::DeleteFiles { path, pattern }, k),
                ),
                Option::None => Option::None,
            },
            Option::None => Option::None,
        }
    } else if c == '6' {
        match get_str_enc(s, i + 1) {
            Option::Some((url, j)) => match get_str_enc(s, j) {
                Option::Some((method, k)) => match get_opt_pairs_enc(s, k) {
                    Option::Some((headers, l)) => match get_opt_str_enc(s, l) {
                        Option::Some((body, m)) => Option::Some(
                            (StepAction::HttpRequest { url, method, headers, body }, m),
                        ),
                        Option::None => Option::None,
                    },
                    Option::None => Option::None,
                },
                Option::None => Option::None,
            },
            Option::None => Option::None,
        }
    } else if c == '7' {
        match get_str_enc(s, i + 1) {
            Option::Some((provider, j)) => match get_str_enc(s, j) {
                Option::Some((project_id, k)) => Option::Some(
                    (StepAction::DeployTrigger { provider, project_id }, k),
                ),
                Option::None => Option::None,
            },
            Option::None => Option::None,
        }
    } else if c == '8' {
        match get_str_enc(s, i + 1) {
            Option::Some((url, j)) => match get_opt_str_enc(s, j) {
                Option::Some((payload, k)) => Option::Some(
                    (StepAction::SendWebhook { url, payload }, k),
                ),
                Option::None => Option::None,
            },
            Option::None => Option::None,
        }
    } else if c == '9' {
        match get_str_enc(s, i + 1) {
            Option::Some((prompt, j)) => match get_opt_str_enc(s, j) {
                Option::Some((output_path, k)) => Option::Some(
                    (StepAction::GenerateContent { prompt, output_path }, k),
                ),
                Option::None => Option::None,
            },
            Option::None => Option::None,
        }
    } else if c == 'a' {
        match get_str_enc(s, i + 1) {
            Option::Some((prompt, j)) => Option::Some((StepAction::AnalyzeAndAct { prompt }, j)),
            Option::None => Option::None,
        }
    } else {
        Option::None
    }
}

/// Writes a task step.
fn put_step(out: &mut String, v: &TaskStep)
    ensures
        final(out)@ == old(out)@ + enc_step(v.deep_view()),
{
    put_str_enc(out, v.id.as_str());
    put_str_enc(out, v.name.as_str());
    put_executor_enc(out, &v.executor);
    put_action_enc(out, &v.action);
    put_bool_enc(out, v.depends_on_previous);
    proof {
        assert(out@ =~= old(out)@ + enc_step(v.deep_view()));
    }
}

/// Reads a task step.
fn get_step(s: &Vec<char>, i: usize) -> (r: Option<(TaskStep, usize)>)
    ensures
        (match r {
            Option::Some((v, j)) => parse_step(s@, i as int) == Option::Some(
                (v.deep_view(), j as int),
            ) && j <= s@.len(),
            Option::None => parse_step(s@, i as int) is None,
        }),
{
    match get_str_enc(s, i) {
        Option::Some((id, a)) => match get_str_enc(s, a) {
            Option::Some((name, b)) => match get_executor_enc(s, b) {
                Option::Some((executor, c)) => match get_action_enc(s, c) {
                    Option::Some((action, d)) => match get_bool_enc(s, d) {
                        Option::Some((depends_on_previous, e)) => Option::Some(
                            (TaskStep { id, name, executor, action, depends_on_previous }, e),
                        ),
                        Option::None => Option::None,
                    },
                    Option::None => Option::None,
                },
                Option::None => Option::None,
            },
            Option::None => Option::None,
        },
        Option::None => Option::None,
    }
}

/// Writes the task step items from `from` on.
fn put_step_items(out: &mut String, v: &Vec<TaskStep>, from: usize)
    requires
        from <= v@.len(),
    ensures
        final(out)@ == old(out)@ + enc_step_items(v.deep_view().skip(from as int)),
    decreases v@.len() - from,
{
    if from < v.len() {
        proof {
            assert(v.deep_view()[from as int] == v@[from as int].deep_view());
        }
        let ghost base = out@;
        put_step(out, &v[from]);
        let ghost mid = out@;
        put_step_items(out, v, from + 1);
        proof {
            let items = v.deep_view().skip(from as int);
            assert(items[0] == v.deep_view()[from as int]);
            assert(items.drop_first() =~= v.deep_view().skip(from as int + 1));
            assert(mid == base + enc_step(v@[from as int].deep_view()));
            assert(out@ == mid + enc_step_items(v.deep_view().skip(from as int + 1)));
            assert(enc_step_items(items) == enc_step(items[0]) + enc_step_items(
                items.drop_first(),
            ));
            assert(out@ =~= old(out)@ + enc_step_items(items));
        }
    } else {
        proof {
            assert(v.deep_view().skip(from as int) =~= Seq::<StepV>::empty());
            assert(out@ =~= old(out)@ + enc_step_items(v.deep_view().skip(from as int)));
        }
    }
}

/// Writes a list of task step.
fn put_step_list(out: &mut String, v: &Vec<TaskStep>)
    ensures
        final(out)@ == old(out)@ + enc_step_list(v.deep_view()),
{
    put_u64_enc(out, v.len() as u64);
    put_step_items(out, v, 0);
    proof {
        assert(v.deep_view().skip(0) =~= v.deep_view());
        assert(out@ =~= old(out)@ + enc_step_list(v.deep_view()));
    }
}

/// Reads `count` task step items.
fn get_step_items(s: &Vec<char>, i: usize, count: u64) -> (r: Option<(Vec<TaskStep>, usize)>)
    requires
        i <= s@.len(),
    ensures
        (match r {
            Option::Some((vs, j)) => parse_step_items(s@, i as int, count) == Option::Some(
                (vs.deep_view(), j as int),
            ) && j <= s@.len(),
            Option::None => parse_step_items(s@, i as int, count) is None,
        }),
    decreases count,
{
    if count == 0 {
        let vs: Vec<TaskStep> = Vec::new();
        proof {
            assert(vs.deep_view() =~= Seq::<StepV>::empty());
        }
        Option::Some((vs, i))
    } else {
        match get_step(s, i) {
            Option::Some((v, j)) => match get_step_items(s, j, count - 1) {
                Option::Some((mut vs, k)) => {
                    let ghost tail = vs.deep_view();
                    let ghost hv = v.deep_view();
                    vs.insert(0, v);
                    proof {
                        assert(vs.deep_view() =~= seq![hv] + tail);
                    }
                    Option::Some((vs, k))
                },
                Option::None => Option::None,
            },
            Option::None => Option::None,
        }
    }
}

/// Reads a list of task step.
fn get_step_list(s: &Vec<char>, i: usize) -> (r: Option<(Vec<TaskStep>, usize)>)
    requires
        i <= s@.len(),
    ensures
        (match r {
            Option::Some((vs, j)) => parse_step_list(s@, i as int) == Option::Some(
                (vs.deep_view(), j as int),
            ) && j <= s@.len(),
            Option::None => parse_step_list(s@, i as int) is None,
        }),
{
    match get_u64_enc(s, i) {
        Option::Some((n, j)) => get_step_items(s, j, n),
        Option::None => Option::None,
    }
}

/// Writes a step result.
#[verifier::rlimit(100)]
#[verifier::spinoff_prover]
fn put_result(out: &mut String, v: &StepResult)
    ensures
        final(out)@ == old(out)@ + enc_result(v.deep_view()),
{
    put_str_enc(out, v.step_id.as_str());
    put_step_status_enc(out, &v.status);
    put_opt_str_enc(out, &v.output);
    put_opt_str_enc(out, &v.error);
    put_u64_enc(out, v.started_at);
    put_opt_u64_enc(out, &v.finished_at);
    proof {
        assert(out@ =~= old(out)@ + enc_result(v.deep_view()));
    }
}

/// Reads a step result.
fn get_result(s: &Vec<char>, i: usize) -> (r: Option<(StepResult, usize)>)
    ensures
        (match r {
            Option::Some((v, j)) => parse_result(s@, i as int) == Option::Some(
                (v.deep_view(), j as int),
            ) && j <= s@.len(),
            Option::None => parse_result(s@, i as int) is None,
        }),
{
    match get_str_enc(s, i) {
        Option::Some((step_id, a)) => match get_step_status_enc(s, a) {
            Option::Some((status, b)) => match get_opt_str_enc(s, b) {
                Option::Some((output, c)) => match get_opt_str_enc(s, c) {
                    Option::Some((error, d)) => match get_u64_enc(s, d) {
                        Option::Some((started_at, e)) => match get_opt_u64_enc(s, e) {
                            Option::Some((finished_at, f)) => Option::Some(
                                (
                                    StepResult {
                                        step_id,
                                        status,
                                        output,
                                        error,
                                        started_at,
                                        finished_at,
                                    },
                                    f,
                                ),
                            ),
                            Option::None => Option::None,
                        },
                        Option::None => Option::None,
                    },
                    Option::None => Option::None,
                },
                Option::None => Option::None,
            },
            Option::None => Option::None,
        },
        Option::None => Option::None,
    }
}

/// Writes the step result items from `from` on.
fn put_result_items(out: &mut String, v: &Vec<StepResult>, from: usize)
    requires
        from <= v@.len(),
    ensures
        final(out)@ == old(out)@ + enc_result_items(v.deep_view().skip(from as int)),
    decreases v@.len() - from,
{
    if from < v.len() {
        proof {
            assert(v.deep_view()[from as int] == v@[from as int].deep_view());
        }
        let ghost base = out@;
        put_result(out, &v[from]);
        let ghost mid = out@;
        put_result_items(out, v, from + 1);
        proof {
            let items = v.deep_view().skip(from as int);
            assert(items[0] == v.deep_view()[from as int]);
            assert(items.drop_first() =~= v.deep_view().skip(from as int + 1));
            assert(mid == base + enc_result(v@[from as int].deep_view()));
            assert(out@ == mid + enc_result_items(v.deep_view().skip(from as int + 1)));
            assert(enc_result_items(items) == enc_result(items[0]) + enc_result_items(
                items.drop_first(),
            ));
            assert(out@ =~= old(out)@ + enc_result_items(items));
        }
    } else {
        proof {
            assert(v.deep_view().skip(from as int) =~= Seq::<StepResultV>::empty());
            assert(out@ =~= old(out)@ + enc_result_items(v.deep_view().skip(from as int)));
        }
    }
}

/// Writes a list of step result.
fn put_result_list(out: &mut String, v: &Vec<StepResult>)
    ensures
        final(out)@ == old(out)@ + enc_result_list(v.deep_view()),
{
    put_u64_enc(out, v.len() as u64);
    put_result_items(out, v, 0);
    proof {
        assert(v.deep_view().skip(0) =~= v.deep_view());
        assert(out@ =~= old(out)@ + enc_result_list(v.deep_view()));
    }
}

/// Reads `count` step result items.
fn get_result_items(s: &Vec<char>, i: usize, count: u64) -> (r: Option<(Vec<StepResult>, usize)>)
    requires
        i <= s@.len(),
    ensures
        (match r {
            Option::Some((vs, j)) => parse_result_items(s@, i as int, count) == Option::Some(
                (vs.deep_view(), j as int),
            ) && j <= s@.len(),
            Option::None => parse_result_items(s@, i as int, count) is None,
        }),
    decreases count,
{
    if count == 0 {
        let vs: Vec<StepResult> = Vec::new();
        proof {
            assert(vs.deep_view() =~= Seq::<StepResultV>::empty());
        }
        Option::Some((vs, i))
    } else {
        match get_result(s, i) {
            Option::Some((v, j)) => match get_result_items(s, j, count - 1) {
                Option::Some((mut vs, k)) => {
                    let ghost tail = vs.deep_view();
                    let ghost hv = v.deep_view();
                    vs.insert(0, v);
                    proof {
                        assert(vs.deep_view() =~= seq![hv] + tail);
                    }
                    Option::Some((vs, k))
                },
                Option::None => Option::None,
            },
            Option::None => Option::None,
        }
    }
}

/// Reads a list of step result.
fn get_result_list(s: &Vec<char>, i: usize) -> (r: Option<(Vec<StepResult>, usize)>)
    requires
        i <= s@.len(),
    ensures
        (match r {
            Option::Some((vs, j)) => parse_result_list(s@, i as int) == Option::Some(
                (vs.deep_view(), j as int),
            ) && j <= s@.len(),
            Option::None => parse_result_list(s@, i as int) is None,
        }),
{
    match get_u64_enc(s, i) {
        Option::Some((n, j)) => get_result_items(s, j, n),
        Option::None => Option::None,
    }
}

/// Writes a task run.
fn put_run(out: &mut String, v: &TaskRun)
    ensures
        final(out)@ == old(out)@ + enc_run(v.deep_view()),
{
    put_u64_enc(out, v.started_at);
    put_opt_u64_enc(out, &v.finished_at);
    put_run_status_enc(out, &v.status);
    put_result_list(out, &v.step_results);
    proof {
        assert(out@ =~= old(out)@ + enc_run(v.deep_view()));
    }
}

/// Reads a task run.
fn get_run(s: &Vec<char>, i: usize) -> (r: Option<(TaskRun, usize)>)
    requires
        i <= s@.len(),
    ensures
        (match r {
            Option::Some((v, j)) => parse_run(s@, i as int) == Option::Some(
                (v.deep_view(), j as int),
            ) && j <= s@.len(),
            Option::None => parse_run(s@, i as int) is None,
        }),
{
    match get_u64_enc(s, i) {
        Option::Some((started_at, a)) => match get_opt_u64_enc(s, a) {
            Option::Some((finished_at, b)) => match get_run_status_enc(s, b) {
                Option::Some((status, c)) => match get_result_list(s, c) {
                    Option::Some((step_results, d)) => Option::Some(
                        (TaskRun { started_at, finished_at, status, step_results }, d),
                    ),
                    Option::None => Option::None,
                },
                Option::None => Option::None,
            },
            Option::None => Option::None,
        },
        Option::None => Option::None,
    }
}

/// Writes an optional task run.
fn put_opt_run_enc(out: &mut String, o: &Option<TaskRun>)
    ensures
        final(out)@ == old(out)@ + enc_opt_run(o.deep_view()),
{
    match o {
        Option::None => {
            out.push('0');
        },
        Option::Some(v) => {
            out.push('1');
            put_run(out, v);
        },
    }
    proof {
        assert(out@ =~= old(out)@ + enc_opt_run(o.deep_view()));
    }
}

/// Reads an optional task run.
fn get_opt_run_enc(s: &Vec<char>, i: usize) -> (r: Option<(Option<TaskRun>, usize)>)
    ensures
        (match r {
            Option::Some((o, j)) => parse_opt_run(s@, i as int) == Option::Some(
                (o.deep_view(), j as int),
            ) && j <= s@.len(),
            Option::None => parse_opt_run(s@, i as int) is None,
        }),
{
    if i >= s.len() {
        return Option::None;
    }
    let c = s[i];
    if c == '0' {
        Option::Some((Option::None, i + 1))
    } else if c == '1' {
        match get_run(s, i + 1) {
            Option::Some((v, j)) => Option::Some((Option::Some(v), j)),
            Option::None => Option::None,
        }
    } else {
        Option::None
    }
}

/// Writes the task run items from `from` on.
fn put_run_items(out: &mut String, v: &Vec<TaskRun>, from: usize)
    requires
        from <= v@.len(),
    ensures
        final(out)@ == old(out)@ + enc_run_items(v.deep_view().skip(from as int)),
    decreases v@.len() - from,
{
    if from < v.len() {
        proof {
            assert(v.deep_view()[from as int] == v@[from as int].deep_view());
        }
        let ghost base = out@;
        put_run(out, &v[from]);
        let ghost mid = out@;
        put_run_items(out, v, from + 1);
        proof {
            let items = v.deep_view().skip(from as int);
            assert(items[0] == v.deep_view()[from as int]);
            assert(items.drop_first() =~= v.deep_view().skip(from as int + 1));
            assert(mid == base + enc_run(v@[from as int].deep_view()));
            assert(out@ == mid + enc_run_items(v.deep_view().skip(from as int + 1)));
            assert(enc_run_items(items) == enc_run(items[0]) + enc_run_items(
                items.drop_first(),
            ));
            assert(out@ =~= old(out)@ + enc_run_items(items));
        }
    } else {
        proof {
            assert(v.deep_view().skip(from as int) =~= Seq::<TaskRunV>::empty());
            assert(out@ =~= old(out)@ + enc_run_items(v.deep_view().skip(from as int)));
        }
    }
}

/// Writes a list of task run.
fn put_run_list(out: &mut String, v: &Vec<TaskRun>)
    ensures
        final(out)@ == old(out)@ + enc_run_list(v.deep_view()),
{
    put_u64_enc(out, v.len() as u64);
    put_run_items(out, v, 0);
    proof {
        assert(v.deep_view().skip(0) =~= v.deep_view());
        assert(out@ =~= old(out)@ + enc_run_list(v.deep_view()));
    }
}

/// Reads `count` task run items.
fn get_run_items(s: &Vec<char>, i: usize, count: u64) -> (r: Option<(Vec<TaskRun>, usize)>)
    requires
        i <= s@.len(),
    ensures
        (match r {
            Option::Some((vs, j)) => parse_run_items(s@, i as int, count) == Option::Some(
                (vs.deep_view(), j as int),
            ) && j <= s@.len(),
            Option::None => parse_run_items(s@, i as int, count) is None,
        }),
    decreases count,
{
    if count == 0 {
        let vs: Vec<TaskRun> = Vec::new();
        proof {
            assert(vs.deep_view() =~= Seq::<TaskRunV>::empty());
        }
        Option::Some((vs, i))
    } else {
        match get_run(s, i) {
            Option::Some((v, j)) => match get_run_items(s, j, count - 1) {
                Option::Some((mut vs, k)) => {
                    let ghost tail = vs.deep_view();
                    let ghost hv = v.deep_view();
                    vs.insert(0, v);
                    proof {
                        assert(vs.deep_view() =~= seq![hv] + tail);
                    }
                    Option::Some((vs, k))
                },
                Option::None => Option::None,
            },
            Option::None => Option::None,
        }
    }
}

/// Reads a list of task run.
fn get_run_list(s: &Vec<char>, i: usize) -> (r: Option<(Vec<TaskRun>, usize)>)
    requires
        i <= s@.len(),
    ensures
        (match r {
            Option::Some((vs, j)) => parse_run_list(s@, i as int) == Option::Some(
                (vs.deep_view(), j as int),
            ) && j <= s@.len(),
            Option::None => parse_run_list(s@, i as int) is None,
        }),
{
    match get_u64_enc(s, i) {
        Option::Some((n, j)) => get_run_items(s, j, n),
        Option::None => Option::None,
    }
}

/// Re-association of a nine-part concatenation onto a base.
proof fn lemma_chain9(
    base: Seq<char>,
    e1: Seq<char>,
    e2: Seq<char>,
    e3: Seq<char>,
    e4: Seq<char>,
    e5: Seq<char>,
    e6: Seq<char>,
    e7: Seq<char>,
    e8: Seq<char>,
    e9: Seq<char>,
)
    ensures
        base + e1 + e2 + e3 + e4 + e5 + e6 + e7 + e8 + e9 == base + (e1 + (e2 + (e3 + (e4 + (e5
            + (e6 + (e7 + (e8 + e9)))))))),
{
    assert(base + e1 + e2 + e3 + e4 + e5 + e6 + e7 + e8 + e9 =~= base + (e1 + (e2 + (e3 + (e4 + (
    e5 + (e6 + (e7 + (e8 + e9)))))))));
}

/// Writes the tail of a task after its four leading strings.
#[verifier::rlimit(100)]
#[verifier::spinoff_prover]
fn put_task_tail(out: &mut String, v: &ScheduledTask)
    ensures
        final(out)@ == old(out)@ + enc_task_tail(v.deep_view()),
{
    put_str_enc(out, v.cron_expression.as_str());
    put_opt_str_enc(out, &v.project_id);
    put_bool_enc(out, v.enabled);
    put_step_list(out, &v.steps);
    put_failure_enc(out, &v.on_failure);
    put_opt_run_enc(out, &v.last_run);
    put_opt_u64_enc(out, &v.next_run);
    put_u64_enc(out, v.created_at);
    put_u64_enc(out, v.updated_at);
    proof {
        let d = v.deep_view();
        let e1 = enc_str(d.cron_expression);
        let e2 = enc_opt_str(d.project_id);
        let e3 = enc_bool(d.enabled);
        let e4 = enc_step_list(d.steps);
        let e5 = enc_failure(d.on_failure);
        let e6 = enc_opt_run(d.last_run);
        let e7 = enc_opt_u64(d.next_run);
        let e8 = enc_u64(d.created_at);
        let e9 = enc_u64(d.updated_at);
        assert(out@ == old(out)@ + e1 + e2 + e3 + e4 + e5 + e6 + e7 + e8 + e9);
        lemma_chain9(old(out)@, e1, e2, e3, e4, e5, e6, e7, e8, e9);
        assert(enc_task_tail(d) == e1 + (e2 + (e3 + (e4 + (e5 + (e6 + (e7 + (e8 + e9))))))));
    }
}

/// Writes a task.
#[verifier::rlimit(100)]
#[verifier::spinoff_prover]
fn put_task(out: &mut String, v: &ScheduledTask)
    ensures
        final(out)@ == old(out)@ + enc_task(v.deep_view()),
{
    put_str_enc(out, v.id.as_str());
    put_str_enc(out, v.name.as_str());
    put_str_enc(out, v.description.as_str());
    put_str_enc(out, v.schedule.as_str());
    put_task_tail(out, v);
    proof {
        assert(out@ =~= old(out)@ + enc_task(v.deep_view()));
    }
}

/// Reads a task.
fn get_task_enc(s: &Vec<char>, i: usize) -> (r: Option<(ScheduledTask, usize)>)
    ensures
        (match r {
            Option::Some((v, j)) => parse_task(s@, i as int) == Option::Some(
                (v.deep_view(), j as int),
            ) && j <= s@.len(),
            Option::None => parse_task(s@, i as int) is None,
        }),
{
    let (id, a) = match get_str_enc(s, i) {
        Option::Some(p) => p,
        Option::None => {
            return Option::None;
        },
    };
    let (name, b) = match get_str_enc(s, a) {
        Option::Some(p) => p,
        Option::None => {
            return Option::None;
        },
    };
    let (description, c) = match get_str_enc(s, b) {
        Option::Some(p) => p,
        Option::None => {
            return Option::None;
        },
    };
    let (schedule, d) = match get_str_enc(s, c) {
        Option::Some(p) => p,
        Option::None => {
            return Option::None;
        },
    };
    let (cron_expression, e) = match get_str_enc(s, d) {
        Option::Some(p) => p,
        Option::None => {
            return Option::None;
        },
    };
    let (project_id, f) = match get_opt_str_enc(s, e) {
        Option::Some(p) => p,
        Option::None => {
            return Option::None;
        },
    };
    let (enabled, g) = match get_bool_enc(s, f) {
        Option::Some(p) => p,
        Option::None => {
            return Option::None;
        },
    };
    let (steps, h) = match get_step_list(s, g) {
        Option::Some(p) => p,
        Option::None => {
            return Option::None;
        },
    };
    let (on_failure, q) = match get_failure_enc(s, h) {
        Option::Some(p) => p,
        Option::None => {
            return Option::None;
        },
    };
    let (last_run, t) = match get_opt_run_enc(s, q) {
        Option::Some(p) => p,
        Option::None => {
            return Option::None;
        },
    };
    let (next_run, u) = match get_opt_u64_enc(s, t) {
        Option::Some(p) => p,
        Option::None => {
            return Option::None;
        },
    };
    let (created_at, w) = match get_u64_enc(s, u) {
        Option::Some(p) => p,
        Option::None => {
            return Option::None;
        },
    };
    let (updated_at, z) = match get_u64_enc(s, w) {
        Option::Some(p) => p,
        Option::None => {
            return Option::None;
        },
    };
    let task = ScheduledTask {
        id,
        name,
        description,
        schedule,
        cron_expression,
        project_id,
        enabled,
        steps,
        on_failure,
        last_run,
        next_run,
        created_at,
        updated_at,
    };
    Option::Some((task, z))
}

/// Writes the task items from `from` on.
fn put_task_items(out: &mut String, v: &Vec<ScheduledTask>, from: usize)
    requires
        from <= v@.len(),
    ensures
        final(out)@ == old(out)@ + enc_task_items(v.deep_view().skip(from as int)),
    decreases v@.len() - from,
{
    if from < v.len() {
        proof {
            assert(v.deep_view()[from as int] == v@[from as int].deep_view());
        }
        let ghost base = out@;
        put_task(out, &v[from]);
        let ghost mid = out@;
        put_task_items(out, v, from + 1);
        proof {
            let items = v.deep_view().skip(from as int);
            assert(items[0] == v.deep_view()[from as int]);
            assert(items.drop_first() =~= v.deep_view().skip(from as int + 1));
            assert(mid == base + enc_task(v@[from as int].deep_view()));
            assert(out@ == mid + enc_task_items(v.deep_view().skip(from as int + 1)));
            assert(enc_task_items(items) == enc_task(items[0]) + enc_task_items(
                items.drop_first(),
            ));
            assert(out@ =~= old(out)@ + enc_task_items(items));
        }
    } else {
        proof {
            assert(v.deep_view().skip(from as int) =~= Seq::<TaskV>::empty());
            assert(out@ =~= old(out)@ + enc_task_items(v.deep_view().skip(from as int)));
        }
    }
}

/// Writes a list of task.
fn put_task_list(out: &mut String, v: &Vec<ScheduledTask>)
    ensures
        final(out)@ == old(out)@ + enc_task_list(v.deep_view()),
{
    put_u64_enc(out, v.len() as u64);
    put_task_items(out, v, 0);
    proof {
        assert(v.deep_view().skip(0) =~= v.deep_view());
        assert(out@ =~= old(out)@ + enc_task_list(v.deep_view()));
    }
}

/// Reads `count` task items.
fn get_task_items(s: &Vec<char>, i: usize, count: u64) -> (r: Option<(Vec<ScheduledTask>, usize)>)
    requires
        i <= s@.len(),
    ensures
        (match r {
            Option::Some((vs, j)) => parse_task_items(s@, i as int, count) == Option::Some(
                (vs.deep_view(), j as int),
            ) && j <= s@.len(),
            Option::None => parse_task_items(s@, i as int, count) is None,
        }),
    decreases count,
{
    if count == 0 {
        let vs: Vec<ScheduledTask> = Vec::new();
        proof {
            assert(vs.deep_view() =~= Seq::<TaskV>::empty());
        }
        Option::Some((vs, i))
    } else {
        match get_task_enc(s, i) {
            Option::Some((v, j)) => match get_task_items(s, j, count - 1) {
                Option::Some((mut vs, k)) => {
                    let ghost tail = vs.deep_view();
                    let ghost hv = v.deep_view();
                    vs.insert(0, v);
                    proof {
                        assert(vs.deep_view() =~= seq![hv] + tail);
                    }
                    Option::Some((vs, k))
                },
                Option::None => Option::None,
            },
            Option::None => Option::None,
        }
    }
}

/// Reads a list of task.
fn get_task_list(s: &Vec<char>, i: usize) -> (r: Option<(Vec<ScheduledTask>, usize)>)
    requires
        i <= s@.len(),
    ensures
        (match r {
            Option::Some((vs, j)) => parse_task_list(s@, i as int) == Option::Some(
                (vs.deep_view(), j as int),
            ) && j <= s@.len(),
            Option::None => parse_task_list(s@, i as int) is None,
        }),
{
    match get_u64_enc(s, i) {
        Option::Some((n, j)) => get_task_items(s, j, n),
        Option::None => Option::None,
    }
}

/// Writes one task's history.
fn put_hist(out: &mut String, v: &TaskHistory)
    ensures
        final(out)@ == old(out)@ + enc_hist(v.deep_view()),
{
    put_str_enc(out, v.task_id.as_str());
    put_run_list(out, &v.runs);
    proof {
        assert(out@ =~= old(out)@ + enc_hist(v.deep_view()));
    }
}

/// Reads one task's history.
fn get_hist(s: &Vec<char>, i: usize) -> (r: Option<(TaskHistory, usize)>)
    ensures
        (match r {
            Option::Some((v, j)) => parse_hist(s@, i as int) == Option::Some(
                (v.deep_view(), j as int),
            ) && j <= s@.len(),
            Option::None => parse_hist(s@, i as int) is None,
        }),
{
    match get_str_enc(s, i) {
        Option::Some((task_id, a)) => match get_run_list(s, a) {
            Option::Some((runs, b)) => Option::Some((TaskHistory { task_id, runs }, b)),
            Option::None => Option::None,
        },
        Option::None => Option::None,
    }
}

/// Writes the history entry items from `from` on.
fn put_hist_items(out: &mut String, v: &Vec<TaskHistory>, from: usize)
    requires
        from <= v@.len(),
    ensures
        final(out)@ == old(out)@ + enc_hist_items(v.deep_view().skip(from as int)),
    decreases v@.len() - from,
{
    if from < v.len() {
        proof {
            assert(v.deep_view()[from as int] == v@[from as int].deep_view());
        }
        let ghost base = out@;
        put_hist(out, &v[from]);
        let ghost mid = out@;
        put_hist_items(out, v, from + 1);
        proof {
            let items = v.deep_view().skip(from as int);
            assert(items[0] == v.deep_view()[from as int]);
            assert(items.drop_first() =~= v.deep_view().skip(from as int + 1));
            assert(mid == base + enc_hist(v@[from as int].deep_view()));
            assert(out@ == mid + enc_hist_items(v.deep_view().skip(from as int + 1)));
            assert(enc_hist_items(items) == enc_hist(items[0]) + enc_hist_items(
                items.drop_first(),
            ));
            assert(out@ =~= old(out)@ + enc_hist_items(items));
        }
    } else {
        proof {
            assert(v.deep_view().skip(from as int) =~= Seq::<TaskHistoryV>::empty());
            assert(out@ =~= old(out)@ + enc_hist_items(v.deep_view().skip(from as int)));
        }
    }
}

/// Writes a list of history entry.
fn put_hist_list(out: &mut String, v: &Vec<TaskHistory>)
    ensures
        final(out)@ == old(out)@ + enc_hist_list(v.deep_view()),
{
    put_u64_enc(out, v.len() as u64);
    put_hist_items(out, v, 0);
    proof {
        assert(v.deep_view().skip(0) =~= v.deep_view());
        assert(out@ =~= old(out)@ + enc_hist_list(v.deep_view()));
    }
}

/// Reads `count` history entry items.
fn get_hist_items(s: &Vec<char>, i: usize, count: u64) -> (r: Option<(Vec<TaskHistory>, usize)>)
    requires
        i <= s@.len(),
    ensures
        (match r {
            Option::Some((vs, j)) => parse_hist_items(s@, i as int, count) == Option::Some(
                (vs.deep_view(), j as int),
            ) && j <= s@.len(),
            Option::None => parse_hist_items(s@, i as int, count) is None,
        }),
    decreases count,
{
    if count == 0 {
        let vs: Vec<TaskHistory> = Vec::new();
        proof {
            assert(vs.deep_view() =~= Seq::<TaskHistoryV>::empty());
        }
        Option::Some((vs, i))
    } else {
        match get_hist(s, i) {
            Option::Some((v, j)) => match get_hist_items(s, j, count - 1) {
                Option::Some((mut vs, k)) => {
                    let ghost tail = vs.deep_view();
                    let ghost hv = v.deep_view();
                    vs.insert(0, v);
                    proof {
                        assert(vs.deep_view() =~= seq![hv] + tail);
                    }
                    Option::Some((vs, k))
                },
                Option::None => Option::None,
            },
            Option::None => Option::None,
        }
    }
}

/// Reads a list of history entry.
fn get_hist_list(s: &Vec<char>, i: usize) -> (r: Option<(Vec<TaskHistory>, usize)>)
    requires
        i <= s@.len(),
    ensures
        (match r {
            Option::Some((vs, j)) => parse_hist_list(s@, i as int) == Option::Some(
                (vs.deep_view(), j as int),
            ) && j <= s@.len(),
            Option::None => parse_hist_list(s@, i as int) is None,
        }),
{
    match get_u64_enc(s, i) {
        Option::Some((n, j)) => get_hist_items(s, j, n),
        Option::None => Option::None,
    }
}

/// Serializes the whole store to its text document.
pub fn encode_store(store: &TaskStore) -> (r: String)
    ensures
        r@ == enc_store(store@),
{
    let mut out = String::new();
    put_task_list(&mut out, &store.tasks);
    put_hist_list(&mut out, &store.history);
    proof {
        assert(out@ =~= enc_store(store@));
    }
    out
}

/// Reads a store back from a text document; a document that does not
/// parse, or leaves text over, yields nothing.
pub fn decode_store(text: &str) -> (r: Option<TaskStore>)
    ensures
        (match r {
            Option::Some(store) => parse_store_doc(text@) == Option::Some(store@),
            Option::None => parse_store_doc(text@) is None,
        }),
{
    let n = text.unicode_len();
    let mut chars: Vec<char> = Vec::new();
    let mut i: usize = 0;
    while i < n
        invariant
            i <= n,
            n == text@.len(),
            chars@ =~= text@.take(i as int),
        decreases n - i,
    {
        chars.push(text.get_char(i));
        proof {
            assert(chars@ =~= text@.take(i as int + 1));
        }
        i = i + 1;
    }
    proof {
        assert(chars@ =~= text@);
    }
    let (tasks, a) = match get_task_list(&chars, 0) {
        Option::Some(p) => p,
        Option::None => {
            return Option::None;
        },
    };
    let (history, b) = match get_hist_list(&chars, a) {
        Option::Some(p) => p,
        Option::None => {
            return Option::None;
        },
    };
    if b != chars.len() {
        return Option::None;
    }
    let store = TaskStore { tasks, history };
    proof {
        assert(store@ == (crate::store::StoreV {
            tasks: store.tasks.deep_view(),
            history: store.history.deep_view(),
        }));
    }
    Option::Some(store)
}

/// Loads a store from persisted text: unparseable or leftover content
/// falls back to the empty store rather than an error.
pub fn store_from_text(text: &str) -> (r: TaskStore)
    ensures
        (match parse_store_doc(text@) {
            Option::Some(v) => r@ == v,
            Option::None => r@.tasks.len() == 0 && r@.history.len() == 0,
        }),
{
    match decode_store(text) {
        Option::Some(store) => store,
        Option::None => TaskStore::new(),
    }
}

} // verus!
