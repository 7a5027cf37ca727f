//! The diagnostic line that announces the dimensions of a build.
use num_format::Locale;
use num_format::ToFormattedString;
use vstd::prelude::*;
use vstd::string::StringExecFns;

verus! {

/// The character of the decimal digit `d`.
pub open spec fn digit_char(d: nat) -> char
    recommends
        d < 10,
{
    ((48 + d) as u8) as char
}

/// The decimal digits of `n`, without leading zeros.
pub open spec fn decimal(n: nat) -> Seq<char>
    decreases n,
{
    if n < 10 {
        seq![digit_char(n)]
    } else {
        decimal(n / 10).push(digit_char(n % 10))
    }
}

/// The decimal digits of `n`, with a comma before each group of three digits
/// counted from the right: `1234567` gives `1,234,567`.
pub open spec fn grouped(n: nat) -> Seq<char>
    decreases n,
{
    if n < 1000 {
        decimal(n)
    } else {
        grouped(n / 1000) + seq![
            ',',
            digit_char(n % 1000 / 100),
            digit_char(n % 100 / 10),
            digit_char(n % 10),
        ]
    }
}

/// The text of the diagnostic line for `samples` samples of `columns` values.
pub open spec fn dimensions_text(samples: nat, columns: nat) -> Seq<char> {
    "Dimensions: "@ + grouped(samples) + " samples by approx "@ + grouped(columns) + " nodes"@
}

/// Calls `to_formatted_string` of num-format with its locale `en`, whose
/// separator is the comma and whose grouping is the standard one. The
/// contract claims that the result is the decimal digits of `n` in groups of
/// three from the right, the groups separated by commas.
#[verifier::external_body]
fn thousands(n: usize) -> (s: String)
    ensures
        s@ == grouped(n as nat),
{
    n.to_formatted_string(&Locale::en)
}

/// The line that reports the dimensions of the input, with both numbers in
/// groups of three digits. The line has no line break.
pub fn dimensions_message(samples: usize, columns: usize) -> (line: String)
    ensures
        line@ == dimensions_text(samples as nat, columns as nat),
{
    let mut line: String = String::from_str("Dimensions: ");
    let count: String = thousands(samples);
    line.append(count.as_str());
    line.append(" samples by approx ");
    let width: String = thousands(columns);
    line.append(width.as_str());
    line.append(" nodes");
    line
}

} // verus!
