//! The runtime's settings: how many workers serve each lane.
use crate::FutureType;
use vstd::prelude::*;

verus! {

/// The digit character of a number below ten.
pub open spec fn digit(n: nat) -> char {
    (n + '0' as nat) as char
}

/// A number written in decimal, without leading zeros.
pub open spec fn decimal(n: nat) -> Seq<char>
    decreases n,
{
    if n < 10 {
        seq![digit(n)]
    } else {
        decimal(n / 10).push(digit(n % 10))
    }
}

pub open spec fn is_digit(c: char) -> bool {
    '0' <= c <= '9'
}

/// The number that a sequence of digits stands for.
pub open spec fn digits_value(digits: Seq<char>) -> nat
    decreases digits.len(),
{
    if digits.len() == 0 {
        0
    } else {
        (digits_value(digits.drop_last()) * 10 + (digits.last() as nat - '0' as nat)) as nat
    }
}

/// `text` without the plus sign that may stand in front of a number.
pub open spec fn unsigned_part(text: Seq<char>) -> Seq<char> {
    if text.len() > 0 && text[0] == '+' {
        text.drop_first()
    } else {
        text
    }
}

/// The count that a text gives: an optional plus sign, then digits and nothing
/// else, of a value that a `usize` can hold.
pub open spec fn count_in(text: Seq<char>) -> Option<usize> {
    let digits = unsigned_part(text);
    if digits.len() > 0 && (forall|i: int| 0 <= i < digits.len() ==> is_digit(#[trigger] digits[i]))
        && digits_value(digits) <= usize::MAX {
        Some(digits_value(digits) as usize)
    } else {
        None
    }
}

/// Calls `usize::to_string`, which writes the number in decimal.
#[verifier::external_body]
fn usize_text(n: usize) -> (text: String)
    ensures
        text@ == decimal(n as nat),
{
    n.to_string()
}

/// Calls `str::parse::<usize>`. It takes an optional plus sign followed by
/// decimal digits, and gives an error for any other text and for a number that
/// a `usize` cannot hold.
#[verifier::external_body]
fn parse_usize(text: &str) -> (count: Option<usize>)
    ensures
        count == count_in(text@),
{
    text.parse::<usize>().ok()
}

/// The name of the environment variable that holds the number of workers of a
/// lane.
pub fn setting_name(order: FutureType) -> (name: &'static str)
    ensures
        name@ == match order {
            FutureType::High => "HIGH_NUM"@,
            FutureType::Low => "LOW_NUM"@,
        },
{
    match order {
        FutureType::High => "HIGH_NUM",
        FutureType::Low => "LOW_NUM",
    }
}

/// The number of workers that the text of a setting asks for; `None` where the
/// text is not a count.
pub fn worker_count(text: &str) -> (count: Option<usize>)
    ensures
        count == count_in(text@),
{
    parse_usize(text)
}

/// An environment variable and its value.
pub struct Setting {
    pub name: &'static str,
    pub value: String,
}

/// What has to be done to start a runtime: first write the settings, then
/// spawn an empty task of each priority in `warm_up`, in that order, and wait
/// for them all.
pub struct Launch {
    pub settings: Vec<Setting>,
    pub warm_up: Vec<FutureType>,
}

/// How many workers serve each lane.
pub struct Runtime {
    high_num: usize,
    low_num: usize,
}

impl Runtime {
    /// The number of workers whose own lane is that of `order`.
    pub closed spec fn workers(self, order: FutureType) -> usize {
        match order {
            FutureType::High => self.high_num,
            FutureType::Low => self.low_num,
        }
    }

    /// One worker for the low lane, and for the high lane one for each of the
    /// machine's cores but two.
    pub fn new(num_cores: usize) -> (runtime: Runtime)
        requires
            num_cores >= 2,
        ensures
            runtime.workers(FutureType::High) == num_cores - 2,
            runtime.workers(FutureType::Low) == 1,
    {
        Runtime { high_num: num_cores - 2, low_num: 1 }
    }

    /// The same runtime with `num` workers for the high lane.
    pub fn with_high_num(self, num: usize) -> (runtime: Runtime)
        ensures
            runtime.workers(FutureType::High) == num,
            runtime.workers(FutureType::Low) == self.workers(FutureType::Low),
    {
        Runtime { high_num: num, ..self }
    }

    /// The same runtime with `num` workers for the low lane.
    pub fn with_low_num(self, num: usize) -> (runtime: Runtime)
        ensures
            runtime.workers(FutureType::Low) == num,
            runtime.workers(FutureType::High) == self.workers(FutureType::High),
    {
        Runtime { low_num: num, ..self }
    }

    /// What has to be done to start this runtime.
    pub fn run(&self) -> (launch: Launch)
        ensures
            launch.settings@.len() == 2,
            launch.settings@[0].name@ == "HIGH_NUM"@,
            launch.settings@[0].value@ == decimal(self.workers(FutureType::High) as nat),
            launch.settings@[1].name@ == "LOW_NUM"@,
            launch.settings@[1].value@ == decimal(self.workers(FutureType::Low) as nat),
            launch.warm_up@ == seq![FutureType::High, FutureType::Low],
    {
        Launch {
            settings: vec![
                Setting { name: setting_name(FutureType::High), value: usize_text(self.high_num) },
                Setting { name: setting_name(FutureType::Low), value: usize_text(self.low_num) },
            ],
            warm_up: vec![FutureType::High, FutureType::Low],
        }
    }
}

proof fn lemma_decimal(n: nat)
    ensures
        decimal(n).len() > 0,
        forall|i: int| 0 <= i < decimal(n).len() ==> is_digit(#[trigger] decimal(n)[i]),
        digits_value(decimal(n)) == n,
    decreases n,
{
    if n < 10 {
        assert(decimal(n).drop_last() =~= Seq::<char>::empty());
        reveal_with_fuel(digits_value, 2);
    } else {
        lemma_decimal(n / 10);
        assert(decimal(n).drop_last() =~= decimal(n / 10));
    }
}

/// What is written is what is read: a count that was written out as the text
/// of a setting is read back from that text.
pub proof fn law_count_survives_as_text(n: usize)
    ensures
        count_in(decimal(n as nat)) == Some(n),
{
    lemma_decimal(n as nat);
    assert(is_digit(decimal(n as nat)[0]));
}

/// As many workers start as were asked for: the counts that are read from a
/// launch's settings are the runtime's own.
pub proof fn law_launch_starts_the_workers_asked_for(runtime: Runtime, launch: Launch)
    requires
        call_ensures(Runtime::run, (&runtime,), launch),
    ensures
        count_in(launch.settings@[0].value@) == Some(runtime.workers(FutureType::High)),
        count_in(launch.settings@[1].value@) == Some(runtime.workers(FutureType::Low)),
{
    law_count_survives_as_text(runtime.workers(FutureType::High));
    law_count_survives_as_text(runtime.workers(FutureType::Low));
}

/// The two settings are independent: making both gives the same runtime in
/// either order, with the two counts that were asked for.
pub proof fn law_settings_are_independent(
    start: Runtime,
    high: usize,
    low: usize,
    high_set: Runtime,
    high_then_low: Runtime,
    low_set: Runtime,
    low_then_high: Runtime,
)
    requires
        call_ensures(Runtime::with_high_num, (start, high), high_set),
        call_ensures(Runtime::with_low_num, (high_set, low), high_then_low),
        call_ensures(Runtime::with_low_num, (start, low), low_set),
        call_ensures(Runtime::with_high_num, (low_set, high), low_then_high),
    ensures
        high_then_low == low_then_high,
        high_then_low.workers(FutureType::High) == high,
        high_then_low.workers(FutureType::Low) == low,
{
}

proof fn lemma_leading_zeros(zeros: nat, digits: Seq<char>)
    requires
        forall|i: int| 0 <= i < digits.len() ==> is_digit(#[trigger] digits[i]),
    ensures
        digits_value(Seq::new(zeros, |i: int| '0') + digits) == digits_value(digits),
    decreases zeros + digits.len(),
{
    let padding = Seq::new(zeros, |i: int| '0');
    let padded = padding + digits;
    if digits.len() > 0 {
        lemma_leading_zeros(zeros, digits.drop_last());
        assert(padded.drop_last() =~= padding + digits.drop_last());
    } else if zeros > 0 {
        let fewer = (zeros - 1) as nat;
        lemma_leading_zeros(fewer, digits);
        assert(padded.drop_last() =~= Seq::new(fewer, |i: int| '0') + digits);
    }
}

/// A number in decimal is read as that number, with or without a plus sign and
/// whatever zeros in front, unless it is too large for a count.
pub proof fn law_decimal_is_read(
    text: &str,
    plus: bool,
    zeros: nat,
    n: nat,
    count: Option<usize>,
)
    requires
        call_ensures(worker_count, (text,), count),
        text@ == (if plus {
            seq!['+']
        } else {
            Seq::empty()
        }) + Seq::new(zeros, |i: int| '0') + decimal(n),
    ensures
        count == if n <= usize::MAX {
            Some(n as usize)
        } else {
            None
        },
{
    let digits = Seq::new(zeros, |i: int| '0') + decimal(n);
    lemma_decimal(n);
    lemma_leading_zeros(zeros, decimal(n));
    assert(is_digit(digits[0])) by {
        if zeros == 0 {
            assert(digits[0] == decimal(n)[0]);
        }
    }
    assert(unsigned_part(text@) =~= digits);
    assert forall|i: int| 0 <= i < digits.len() implies is_digit(#[trigger] digits[i]) by {
        if i >= zeros {
            assert(digits[i] == decimal(n)[i - zeros]);
        }
    }
}

/// A text that holds anything but digits behind an optional plus sign, or no
/// digit at all, is no count.
pub proof fn law_other_text_is_no_count(text: &str, count: Option<usize>)
    requires
        call_ensures(worker_count, (text,), count),
        ({
            ||| text@.len() == 0
            ||| text@.len() == 1 && !is_digit(text@[0])
            ||| exists|i: int| 1 <= i < text@.len() && !is_digit(#[trigger] text@[i])
            ||| text@.len() > 0 && !is_digit(text@[0]) && text@[0] != '+'
        }),
    ensures
        count is None,
{
    let digits = unsigned_part(text@);
    if text@.len() > 0 {
        if exists|i: int| 1 <= i < text@.len() && !is_digit(#[trigger] text@[i]) {
            let i = choose|i: int| 1 <= i < text@.len() && !is_digit(#[trigger] text@[i]);
            if text@[0] == '+' {
                assert(digits[i - 1] == text@[i]);
            } else {
                assert(digits[i] == text@[i]);
            }
        } else if text@[0] != '+' {
            assert(digits[0] == text@[0]);
        }
    }
}

} // verus!
