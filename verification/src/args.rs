//! The command line: `θ1 ω1 θ2 ω2 [λ_threshold]`.
//!
//! Turning each argument into a number is done by the caller; this module
//! takes one `Option` per argument (`None` where the text is not a number)
//! and decides whether the command line is complete, and if it is not,
//! writes the report that tells the user what is wrong with it.
use vstd::prelude::*;

verus! {

/// The most arguments the command line accepts.
pub const MAX_ARGS: usize = 5;

/// The number of state variables, which must all be given.
pub const N_STATE_VARS: usize = 4;

/// The name of the `i`-th positional argument.
pub open spec fn arg_name(i: nat) -> Seq<char> {
    if i == 0 {
        "θ1"@
    } else if i == 1 {
        "ω1"@
    } else if i == 2 {
        "θ2"@
    } else if i == 3 {
        "ω2"@
    } else {
        "λ_threshold"@
    }
}

fn arg_name_str(i: usize) -> (s: &'static str)
    ensures
        s@ == arg_name(i as nat),
{
    if i == 0 {
        "θ1"
    } else if i == 1 {
        "ω1"
    } else if i == 2 {
        "θ2"
    } else if i == 3 {
        "ω2"
    } else {
        "λ_threshold"
    }
}

/// The variables not covered by `n` leading arguments, followed by the
/// optional threshold; `None` when nothing required is missing.
pub open spec fn spec_missing_names(n: nat) -> Option<Seq<char>> {
    if n == 0 {
        Some("θ1 ω1 θ2 ω2 [optional: λ_threshold]"@)
    } else if n == 1 {
        Some("ω1 θ2 ω2 [optional: λ_threshold]"@)
    } else if n == 2 {
        Some("θ2 ω2 [optional: λ_threshold]"@)
    } else if n == 3 {
        Some("ω2 [optional: λ_threshold]"@)
    } else {
        None
    }
}

/// The state variables not covered by `n` leading arguments, followed by the
/// optional threshold. `None` when nothing required is missing.
pub fn missing_names(n: usize) -> (r: Option<&'static str>)
    ensures
        r is Some <==> n < N_STATE_VARS,
        match r {
            Some(s) => spec_missing_names(n as nat) == Some(s@),
            None => spec_missing_names(n as nat) is None,
        },
        n == 0 ==> (r matches Some(s) && s@ == "θ1 ω1 θ2 ω2 [optional: λ_threshold]"@),
        n == 1 ==> (r matches Some(s) && s@ == "ω1 θ2 ω2 [optional: λ_threshold]"@),
        n == 2 ==> (r matches Some(s) && s@ == "θ2 ω2 [optional: λ_threshold]"@),
        n == 3 ==> (r matches Some(s) && s@ == "ω2 [optional: λ_threshold]"@),
{
    match n {
        0 => Some("θ1 ω1 θ2 ω2 [optional: λ_threshold]"),
        1 => Some("ω1 θ2 ω2 [optional: λ_threshold]"),
        2 => Some("θ2 ω2 [optional: λ_threshold]"),
        3 => Some("ω2 [optional: λ_threshold]"),
        _ => None,
    }
}

/// The decimal digit `d` (for `d < 10`).
pub open spec fn digit_char(d: nat) -> char {
    if d == 0 {
        '0'
    } else if d == 1 {
        '1'
    } else if d == 2 {
        '2'
    } else if d == 3 {
        '3'
    } else if d == 4 {
        '4'
    } else if d == 5 {
        '5'
    } else if d == 6 {
        '6'
    } else if d == 7 {
        '7'
    } else if d == 8 {
        '8'
    } else {
        '9'
    }
}

/// The decimal notation of `n`, without leading zeros.
pub open spec fn decimal(n: nat) -> Seq<char>
    decreases n,
{
    if n < 10 {
        seq![digit_char(n)]
    } else {
        decimal(n / 10).push(digit_char(n % 10))
    }
}

fn digit_str(d: usize) -> (s: &'static str)
    requires
        d < 10,
    ensures
        s@ == seq![digit_char(d as nat)],
{
    proof {
        reveal_strlit("0");
        reveal_strlit("1");
        reveal_strlit("2");
        reveal_strlit("3");
        reveal_strlit("4");
        reveal_strlit("5");
        reveal_strlit("6");
        reveal_strlit("7");
        reveal_strlit("8");
        reveal_strlit("9");
    }
    match d {
        0 => "0",
        1 => "1",
        2 => "2",
        3 => "3",
        4 => "4",
        5 => "5",
        6 => "6",
        7 => "7",
        8 => "8",
        _ => "9",
    }
}

/// Writes `n` in decimal notation.
pub fn decimal_string(n: usize) -> (s: String)
    ensures
        s@ == decimal(n as nat),
        decimal_value(s@) == n,
        forall|i: int| 0 <= i < s@.len() ==> 0 <= #[trigger] digit_value(s@[i]) <= 9,
        n > 0 ==> s@[0] != '0',
    decreases n,
{
    proof {
        lemma_decimal_reads_back(n as nat);
    }
    if n < 10 {
        String::from_str(digit_str(n))
    } else {
        let mut s = decimal_string(n / 10);
        s.append(digit_str(n % 10));
        s
    }
}

/// The value of the digit character `c`.
pub open spec fn digit_value(c: char) -> int {
    if c == '0' {
        0
    } else if c == '1' {
        1
    } else if c == '2' {
        2
    } else if c == '3' {
        3
    } else if c == '4' {
        4
    } else if c == '5' {
        5
    } else if c == '6' {
        6
    } else if c == '7' {
        7
    } else if c == '8' {
        8
    } else if c == '9' {
        9
    } else {
        -1
    }
}

/// The number that the digit string `s` denotes in base ten.
pub open spec fn decimal_value(s: Seq<char>) -> int
    decreases s.len(),
{
    if s.len() == 0 {
        0
    } else {
        decimal_value(s.drop_last()) * 10 + digit_value(s.last())
    }
}

proof fn lemma_digit_value(d: nat)
    requires
        d < 10,
    ensures
        digit_value(digit_char(d)) == d,
{
}

/// The decimal notation of `n` is a non-empty string of digits without a
/// leading zero (unless `n` is zero) that reads back as `n`.
pub proof fn lemma_decimal_reads_back(n: nat)
    ensures
        decimal(n).len() >= 1,
        forall|i: int| 0 <= i < decimal(n).len() ==> 0 <= #[trigger] digit_value(decimal(n)[i]) <= 9,
        decimal_value(decimal(n)) == n,
        n > 0 ==> decimal(n)[0] != '0',
        n < 10 <==> decimal(n).len() == 1,
    decreases n,
{
    if n < 10 {
        lemma_digit_value(n);
        assert(decimal(n).drop_last() =~= Seq::<char>::empty());
        assert(decimal_value(decimal(n).drop_last()) == 0);
        assert(decimal_value(decimal(n)) == decimal_value(decimal(n).drop_last()) * 10
            + digit_value(decimal(n).last()));
    } else {
        lemma_decimal_reads_back(n / 10);
        lemma_digit_value(n % 10);
        let d = decimal(n);
        let p = decimal(n / 10);
        assert(d == p.push(digit_char(n % 10)));
        assert(d.drop_last() == p);
        assert(d[0] == p[0]);
        assert forall|i: int| 0 <= i < d.len() implies 0 <= #[trigger] digit_value(d[i]) <= 9 by {
            if i < p.len() {
                assert(d[i] == p[i]);
            }
        }
        assert(d.last() == digit_char(n % 10));
        assert(decimal_value(d) == decimal_value(p) * 10 + digit_value(d.last()));
        assert(n == (n / 10) * 10 + n % 10);
        assert(decimal_value(d) == n);
    }
}

/// The report for a command line with more than `MAX_ARGS` arguments.
pub open spec fn too_many_report(n: nat) -> Seq<char> {
    "Error:\n- too many arguments: expected at most "@ + decimal(MAX_ARGS as nat)
        + " (θ1 ω1 θ2 ω2 [λ_threshold]), got "@ + decimal(n)
}

/// The heading of the list of invalid arguments.
pub open spec fn heading(n_invalid: nat) -> Seq<char> {
    if n_invalid == 1 {
        "Error:\n"@
    } else {
        "Errors:\n"@
    }
}

/// The line that reports argument `i` as not a number.
pub open spec fn invalid_line(i: nat) -> Seq<char> {
    "- "@ + arg_name(i) + " is not a valid float."@ + "\n"@
}

/// The lines for the invalid arguments, in their order on the command line.
pub open spec fn invalid_lines<T>(parsed: Seq<Option<T>>) -> Seq<char>
    decreases parsed.len(),
{
    if parsed.len() == 0 {
        Seq::empty()
    } else if parsed.last() is Some {
        invalid_lines(parsed.drop_last())
    } else {
        invalid_lines(parsed.drop_last()) + invalid_line((parsed.len() - 1) as nat)
    }
}

/// The number of arguments that are not numbers.
pub open spec fn n_invalid<T>(parsed: Seq<Option<T>>) -> nat
    decreases parsed.len(),
{
    if parsed.len() == 0 {
        0
    } else if parsed.last() is Some {
        n_invalid(parsed.drop_last())
    } else {
        n_invalid(parsed.drop_last()) + 1
    }
}

/// The section that lists the variables still missing.
pub open spec fn missing_block(n: nat) -> Seq<char> {
    match spec_missing_names(n) {
        Some(m) => "Missing Parameters:\n"@ + "- "@ + m + "\n"@,
        None => Seq::empty(),
    }
}

/// The report for a command line of at most `MAX_ARGS` arguments: the
/// invalid arguments under their heading, then, after a blank line where
/// both are present, the variables still missing.
pub open spec fn args_report<T>(parsed: Seq<Option<T>>) -> Seq<char> {
    let errs = n_invalid(parsed);
    let invalid_part = if errs > 0 {
        heading(errs) + invalid_lines(parsed) + if spec_missing_names(parsed.len()) is Some {
            "\n"@
        } else {
            Seq::empty()
        }
    } else {
        Seq::empty()
    };
    invalid_part + missing_block(parsed.len())
}

/// The command line is accepted: all four state variables and at most the
/// one optional threshold are given, and every one of them is a number.
pub open spec fn args_complete<T>(parsed: Seq<Option<T>>) -> bool {
    &&& N_STATE_VARS <= parsed.len() <= MAX_ARGS
    &&& forall|i: int| 0 <= i < parsed.len() ==> #[trigger] parsed[i] is Some
}

proof fn lemma_n_invalid_zero<T>(parsed: Seq<Option<T>>)
    ensures
        n_invalid(parsed) == 0 <==> forall|i: int| 0 <= i < parsed.len() ==> #[trigger] parsed[i] is Some,
    decreases parsed.len(),
{
    if parsed.len() > 0 {
        lemma_n_invalid_zero(parsed.drop_last());
        if n_invalid(parsed) == 0 {
            assert forall|i: int| 0 <= i < parsed.len() implies #[trigger] parsed[i] is Some by {
                if i < parsed.len() - 1 {
                    assert(parsed.drop_last()[i] == parsed[i]);
                }
            }
        } else {
            if parsed.last() is Some {
                let k = choose|k: int|
                    0 <= k < parsed.drop_last().len() && !(#[trigger] parsed.drop_last()[k] is Some);
                assert(parsed[k] == parsed.drop_last()[k]);
            }
        }
    }
}

/// Reads the command line: on success the start state `θ1 ω1 θ2 ω2` and the
/// chaotic threshold (`default_threshold` where the fifth argument is
/// absent); otherwise the report naming the arguments that are not numbers
/// and the variables still missing, or the report that there are too many
/// arguments.
pub fn parse_args<T: Copy>(parsed: &Vec<Option<T>>, default_threshold: T) -> (r: Result<
    ([T; 4], T),
    String,
>)
    requires
        parsed.len() >= 1,
    ensures
        parsed.len() > MAX_ARGS ==> (r matches Err(e) && e@ == too_many_report(parsed.len() as nat)),
        parsed.len() <= MAX_ARGS ==> (r is Ok <==> args_complete(parsed@)),
        parsed.len() <= MAX_ARGS && !args_complete(parsed@) ==> (r matches Err(e) && e@
            == args_report(parsed@)),
        r matches Ok((y0, threshold)) ==> {
            &&& y0@ == seq![
                parsed@[0]->0,
                parsed@[1]->0,
                parsed@[2]->0,
                parsed@[3]->0,
            ]
            &&& threshold == if parsed.len() == MAX_ARGS {
                parsed@[4]->0
            } else {
                default_threshold
            }
        },
{
    let n = parsed.len();
    if n > MAX_ARGS {
        let mut report = String::from_str("Error:\n- too many arguments: expected at most ");
        let max_text = decimal_string(MAX_ARGS);
        report.append(max_text.as_str());
        report.append(" (θ1 ω1 θ2 ω2 [λ_threshold]), got ");
        let n_text = decimal_string(n);
        report.append(n_text.as_str());
        return Err(report);
    }
    let mut lines = String::new();
    let mut n_errors: usize = 0;
    let mut i: usize = 0;
    while i < n
        invariant
            n == parsed.len(),
            i <= n,
            n_errors <= i,
            lines@ == invalid_lines(parsed@.take(i as int)),
            n_errors == n_invalid(parsed@.take(i as int)),
        decreases n - i,
    {
        proof {
            assert(parsed@.take(i + 1).drop_last() == parsed@.take(i as int));
        }
        if parsed[i].is_none() {
            lines.append("- ");
            lines.append(arg_name_str(i));
            lines.append(" is not a valid float.");
            lines.append("\n");
            n_errors = n_errors + 1;
        }
        i = i + 1;
    }
    proof {
        assert(parsed@.take(n as int) == parsed@);
        lemma_n_invalid_zero(parsed@);
    }
    let missing = missing_names(n);
    let mut report = String::new();
    if n_errors > 0 {
        if n_errors == 1 {
            report.append("Error:\n");
        } else {
            report.append("Errors:\n");
        }
        report.append(lines.as_str());
        if missing.is_some() {
            report.append("\n");
        }
    }
    assert(report@ == (if n_errors > 0 {
        heading(n_errors as nat) + invalid_lines(parsed@) + if spec_missing_names(n as nat) is Some {
            "\n"@
        } else {
            Seq::empty()
        }
    } else {
        Seq::empty()
    }));
    match missing {
        Some(m) => {
            report.append("Missing Parameters:\n");
            report.append("- ");
            report.append(m);
            report.append("\n");
        },
        None => {},
    }
    if n_errors > 0 || missing.is_some() {
        return Err(report);
    }
    let y0 = [
        parsed[0].unwrap(),
        parsed[1].unwrap(),
        parsed[2].unwrap(),
        parsed[3].unwrap(),
    ];
    let threshold = if n == MAX_ARGS {
        parsed[4].unwrap()
    } else {
        default_threshold
    };
    Ok((y0, threshold))
}

/// Whether `part` occurs in `text` as a contiguous run of characters.
pub open spec fn occurs_in(part: Seq<char>, text: Seq<char>) -> bool {
    exists|k: int| 0 <= k && k + part.len() <= text.len() && #[trigger] text.subrange(k, k + part.len()) == part
}

proof fn lemma_occurs_in_prefix(part: Seq<char>, text: Seq<char>, more: Seq<char>)
    requires
        occurs_in(part, text),
    ensures
        occurs_in(part, text + more),
{
    let k = choose|k: int| 0 <= k && k + part.len() <= text.len() && #[trigger] text.subrange(k, k + part.len()) == part;
    assert((text + more).subrange(k, k + part.len()) =~= text.subrange(k, k + part.len()));
}

proof fn lemma_occurs_in_suffix(part: Seq<char>, text: Seq<char>, more: Seq<char>)
    requires
        occurs_in(part, more),
    ensures
        occurs_in(part, text + more),
{
    let k = choose|k: int| 0 <= k && k + part.len() <= more.len() && #[trigger] more.subrange(k, k + part.len()) == part;
    let k2 = text.len() + k;
    assert((text + more).subrange(k2, k2 + part.len()) =~= more.subrange(k, k + part.len()));
}

proof fn lemma_invalid_lines_name_each<T>(parsed: Seq<Option<T>>, i: int)
    requires
        0 <= i < parsed.len(),
        parsed[i] is None,
    ensures
        occurs_in(invalid_line(i as nat), invalid_lines(parsed)),
    decreases parsed.len(),
{
    let line = invalid_line(i as nat);
    if i < parsed.len() - 1 {
        assert(parsed.drop_last()[i] == parsed[i]);
        lemma_invalid_lines_name_each(parsed.drop_last(), i);
        if parsed.last() is None {
            let last_line = invalid_line((parsed.len() - 1) as nat);
            lemma_occurs_in_prefix(line, invalid_lines(parsed.drop_last()), last_line);
            assert(invalid_lines(parsed) == invalid_lines(parsed.drop_last()) + last_line);
        } else {
            assert(invalid_lines(parsed) == invalid_lines(parsed.drop_last()));
        }
    } else {
        assert(parsed.last() is None);
        assert(invalid_lines(parsed) == invalid_lines(parsed.drop_last()) + line);
        assert(line.subrange(0int, 0int + line.len()) =~= line);
        assert(occurs_in(line, line));
        lemma_occurs_in_suffix(line, invalid_lines(parsed.drop_last()), line);
    }
}

/// Every argument that is not a number is named in the report, on its own
/// line.
pub proof fn lemma_report_names_each_invalid<T>(parsed: Seq<Option<T>>, i: int)
    requires
        0 <= i < parsed.len(),
        parsed[i] is None,
    ensures
        occurs_in(invalid_line(i as nat), args_report(parsed)),
{
    let errs = n_invalid(parsed);
    lemma_n_invalid_zero(parsed);
    assert(errs > 0);
    lemma_invalid_lines_name_each(parsed, i);
    let tail = if spec_missing_names(parsed.len()) is Some {
        "\n"@
    } else {
        Seq::empty()
    };
    lemma_occurs_in_suffix(invalid_line(i as nat), heading(errs), invalid_lines(parsed));
    lemma_occurs_in_prefix(invalid_line(i as nat), heading(errs) + invalid_lines(parsed), tail);
    lemma_occurs_in_prefix(
        invalid_line(i as nat),
        heading(errs) + invalid_lines(parsed) + tail,
        missing_block(parsed.len()),
    );
}

/// A report that lists invalid arguments opens with `Error:` when exactly
/// one argument is not a number and with `Errors:` when more are.
pub proof fn lemma_report_heading<T>(parsed: Seq<Option<T>>)
    requires
        n_invalid(parsed) > 0,
    ensures
        args_report(parsed).take(heading(n_invalid(parsed)).len() as int) == heading(
            n_invalid(parsed),
        ),
        heading(n_invalid(parsed)) == "Errors:\n"@ <==> n_invalid(parsed) > 1,
        heading(n_invalid(parsed)) == "Error:\n"@ <==> n_invalid(parsed) == 1,
{
    reveal_strlit("Errors:\n");
    reveal_strlit("Error:\n");
    let h = heading(n_invalid(parsed));
    assert(args_report(parsed).take(h.len() as int) =~= h);
    assert("Errors:\n"@.len() != "Error:\n"@.len());
}

/// The report lists missing variables exactly when fewer than the four state
/// variables were given.
pub proof fn lemma_report_missing_block(n: nat)
    ensures
        missing_block(n).len() > 0 <==> n < N_STATE_VARS,
{
    reveal_strlit("Missing Parameters:\n");
}

} // verus!
