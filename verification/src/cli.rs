//! Command-line arguments, the postcode choice, and the request URLs.

use vstd::prelude::*;
use crate::text::{has_prefix, push_char, push_decimal, push_str, starts_with, decimal};

verus! {

/// What the command line asks for.
pub struct CliArgs {
    /// `--help` or `-h` given.
    pub help: bool,
    /// `--fake` given: deterministic fake data, no network.
    pub fake: bool,
    /// `Some(true)` for `--reverse`, `Some(false)` for `--forward` (when
    /// `--reverse` is absent), `None` for neither.
    pub reverse: Option<bool>,
    /// The first argument after the program name that does not start with `-`.
    pub postcode: Option<String>,
}

/// Whether `s` is one of the arguments.
pub open spec fn has_arg(args: Seq<String>, s: Seq<char>) -> bool {
    exists|i: int| 0 <= i < args.len() && (#[trigger] args[i])@ == s
}

/// Index of the first argument after the program name that does not start with `-`.
pub open spec fn first_operand(args: Seq<String>, from: int) -> Option<int>
    decreases args.len() - from,
{
    if from >= args.len() {
        None
    } else if !starts_with(args[from]@, "-"@) {
        Some(from)
    } else {
        first_operand(args, from + 1)
    }
}

fn arg_present(args: &Vec<String>, s: &str) -> (r: bool)
    ensures
        r == has_arg(args@, s@),
{
    let mut i: usize = 0;
    while i < args.len()
        invariant
            i <= args.len(),
            forall|j: int| 0 <= j < i ==> (#[trigger] args@[j])@ != s@,
        decreases args.len() - i,
    {
        if crate::text::same_text(args[i].as_str(), s) {
            return true;
        }
        i = i + 1;
    }
    false
}

/// Reads the command line (`args[0]` is the program name).
pub fn parse_args(args: &Vec<String>) -> (r: CliArgs)
    ensures
        r.help == (has_arg(args@, "--help"@) || has_arg(args@, "-h"@)),
        r.fake == has_arg(args@, "--fake"@),
        r.reverse == if has_arg(args@, "--reverse"@) {
            Some(true)
        } else if has_arg(args@, "--forward"@) {
            Some(false)
        } else {
            None
        },
        match first_operand(args@, 1) {
            Some(i) => r.postcode matches Some(p) && p@ == args@[i]@,
            None => r.postcode is None,
        },
{
    let help = arg_present(args, "--help") || arg_present(args, "-h");
    let fake = arg_present(args, "--fake");
    let reverse = if arg_present(args, "--reverse") {
        Some(true)
    } else if arg_present(args, "--forward") {
        Some(false)
    } else {
        None
    };
    let postcode = match operand_index(args) {
        Some(i) => Some(args[i].clone()),
        None => None,
    };
    CliArgs { help, fake, reverse, postcode }
}

fn operand_index(args: &Vec<String>) -> (r: Option<usize>)
    ensures
        match r {
            Some(i) => first_operand(args@, 1) == Some(i as int) && i < args.len(),
            None => first_operand(args@, 1) is None,
        },
{
    let mut i: usize = 1;
    while i < args.len()
        invariant
            1 <= i,
            first_operand(args@, 1) == first_operand(args@, i as int),
        decreases args.len() - i,
    {
        if !has_prefix(args[i].as_str(), "-") {
            return Some(i);
        }
        i = i + 1;
    }
    None
}

/// The postcode to forecast: the one given on the command line unless it is
/// empty, else the saved one unless it is empty, else none.
pub open spec fn chosen_postcode(given: Option<Seq<char>>, saved: Seq<char>) -> Option<Seq<char>> {
    match given {
        Some(p) => if p.len() > 0 {
            Some(p)
        } else if saved.len() > 0 {
            Some(saved)
        } else {
            None
        },
        None => if saved.len() > 0 {
            Some(saved)
        } else {
            None
        },
    }
}

/// A chosen postcode is never empty; one given on the command line wins
/// whenever it is not empty; otherwise the saved one is used when there is
/// one, and there is none only when neither is given.
pub proof fn law_chosen_postcode(given: Option<Seq<char>>, saved: Seq<char>)
    ensures
        chosen_postcode(given, saved) matches Some(p) ==> p.len() > 0,
        given is Some && given->0.len() > 0 ==> chosen_postcode(given, saved) == given,
        !(given is Some && given->0.len() > 0) && saved.len() > 0 ==> chosen_postcode(given, saved) == Some(saved),
        chosen_postcode(given, saved) is None <==> (!(given is Some && given->0.len() > 0) && saved.len() == 0),
{
}

/// Chooses the postcode to forecast.
pub fn resolve_postcode(given: Option<&str>, saved: &str) -> (r: Option<String>)
    ensures
        match r {
            Some(p) => chosen_postcode(
                match given {
                    Some(g) => Some(g@),
                    None => None,
                },
                saved@,
            ) == Some(p@),
            None => chosen_postcode(
                match given {
                    Some(g) => Some(g@),
                    None => None,
                },
                saved@,
            ) is None,
        },
{
    match given {
        Some(p) => {
            if !p.is_empty() {
                let mut s = String::new();
                push_str(&mut s, p);
                return Some(s);
            }
        },
        None => {},
    }
    if !saved.is_empty() {
        let mut s = String::new();
        push_str(&mut s, saved);
        Some(s)
    } else {
        None
    }
}

/// Whether the chosen postcode is to be saved: it was given on the command
/// line and differs from the saved one.
pub fn should_save_postcode(given: bool, postcode: &str, saved: &str) -> (r: bool)
    ensures
        r == (given && postcode@ != saved@),
{
    given && !crate::text::same_text(postcode, saved)
}

/// The order preference to save, if the command line changes it.
pub fn order_to_save(requested: Option<bool>, saved: bool) -> (r: Option<bool>)
    ensures
        r == match requested {
            Some(rev) => if rev != saved {
                Some(rev)
            } else {
                None
            },
            None => None,
        },
{
    match requested {
        Some(rev) => if rev != saved {
            Some(rev)
        } else {
            None
        },
        None => None,
    }
}

/// The location line above the table: `name (postcode)`.
pub open spec fn location_line(name: Seq<char>, postcode: Seq<char>) -> Seq<char> {
    name + " ("@ + postcode + ")"@
}

/// Formats the location line.
pub fn location_header(name: &str, postcode: &str) -> (r: String)
    ensures
        r@ == location_line(name@, postcode@),
{
    let mut r = String::new();
    push_str(&mut r, name);
    push_str(&mut r, " (");
    push_str(&mut r, postcode);
    push_str(&mut r, ")");
    assert(r@ =~= location_line(name@, postcode@));
    r
}

/// The place name of a geocoding result: the city when known, else the label.
pub fn place_name(city: Option<String>, label: String) -> (r: String)
    ensures
        r == match city {
            Some(c) => c,
            None => label,
        },
{
    match city {
        Some(c) => c,
        None => label,
    }
}

/// The municipality search for a postcode on api-adresse.data.gouv.fr.
pub open spec fn geocode_query(postcode: Seq<char>) -> Seq<char> {
    "https://api-adresse.data.gouv.fr/search/?q="@ + postcode + "&type=municipality&limit=1"@
}

/// Builds the geocoding request URL.
pub fn geocode_url(postcode: &str) -> (r: String)
    ensures
        r@ == geocode_query(postcode@),
{
    let mut r = String::new();
    push_str(&mut r, "https://api-adresse.data.gouv.fr/search/?q=");
    push_str(&mut r, postcode);
    push_str(&mut r, "&type=municipality&limit=1");
    assert(r@ =~= geocode_query(postcode@));
    r
}

/// The Open-Meteo hourly request for a position (latitude and longitude
/// already written with four decimals), an optional model and a number of days.
pub open spec fn forecast_query(lat: Seq<char>, lon: Seq<char>, model: Option<Seq<char>>, days: u32) -> Seq<char> {
    let base = "https://api.open-meteo.com/v1/forecast?latitude="@ + lat + "&longitude="@ + lon
        + "&hourly=temperature_2m,precipitation,weathercode,windspeed_10m,winddirection_10m,windgusts_10m,surface_pressure&wind_speed_unit=kmh&timezone=Europe%2FParis&forecast_days="@
        + decimal(days as nat);
    match model {
        Some(m) => base + "&models="@ + m,
        None => base,
    }
}

/// Builds the Open-Meteo request URL.
pub fn forecast_url(lat: &str, lon: &str, model: Option<&str>, days: u32) -> (r: String)
    ensures
        r@ == forecast_query(
            lat@,
            lon@,
            match model {
                Some(m) => Some(m@),
                None => None,
            },
            days,
        ),
{
    let mut r = String::new();
    push_str(&mut r, "https://api.open-meteo.com/v1/forecast?latitude=");
    push_str(&mut r, lat);
    push_str(&mut r, "&longitude=");
    push_str(&mut r, lon);
    push_str(
        &mut r,
        "&hourly=temperature_2m,precipitation,weathercode,windspeed_10m,winddirection_10m,windgusts_10m,surface_pressure&wind_speed_unit=kmh&timezone=Europe%2FParis&forecast_days=",
    );
    push_decimal(&mut r, days as u64);
    match model {
        Some(m) => {
            push_str(&mut r, "&models=");
            push_str(&mut r, m);
        },
        None => {},
    }
    assert(r@ =~= forecast_query(
        lat@,
        lon@,
        match model {
            Some(m) => Some(m@),
            None => None,
        },
        days,
    ));
    r
}

/// Whether `c` has the Unicode `White_Space` property.
pub open spec fn is_unicode_space(c: char) -> bool {
    let u = c as u32;
    ||| (0x09 <= u && u <= 0x0D)
    ||| u == 0x20
    ||| u == 0x85
    ||| u == 0xA0
    ||| u == 0x1680
    ||| (0x2000 <= u && u <= 0x200A)
    ||| u == 0x2028
    ||| u == 0x2029
    ||| u == 0x202F
    ||| u == 0x205F
    ||| u == 0x3000
}

/// `s` without its leading white space.
pub open spec fn trim_start(s: Seq<char>) -> Seq<char>
    decreases s.len(),
{
    if s.len() > 0 && is_unicode_space(s[0]) {
        trim_start(s.drop_first())
    } else {
        s
    }
}

/// `s` without its trailing white space.
pub open spec fn trim_end(s: Seq<char>) -> Seq<char>
    decreases s.len(),
{
    if s.len() > 0 && is_unicode_space(s.last()) {
        trim_end(s.drop_last())
    } else {
        s
    }
}

/// `s` without leading and trailing white space.
pub open spec fn trimmed(s: Seq<char>) -> Seq<char> {
    trim_end(trim_start(s))
}

/// Calls `str::trim`. Trusted: as documented, the result is `s` without its
/// leading and trailing characters of the Unicode `White_Space` property.
#[verifier::external_body]
fn trim_text(s: &str) -> (r: &str)
    ensures
        r@ == trimmed(s@),
{
    s.trim()
}

/// Whether `d` is a non-empty run of ASCII digits.
pub open spec fn all_digits(d: Seq<char>) -> bool {
    d.len() > 0 && forall|i: int| 0 <= i < d.len() ==> '0' <= #[trigger] d[i] <= '9'
}

/// The number a run of decimal digits stands for.
pub open spec fn digits_value(d: Seq<char>) -> nat
    decreases d.len(),
{
    if d.len() == 0 {
        0
    } else {
        digits_value(d.drop_last()) * 10 + ((d.last() as u32) - 48) as nat
    }
}

/// What `s.parse::<usize>()` reads: an optional `+`, then one or more ASCII
/// digits whose value fits a `usize`; anything else is rejected.
pub open spec fn parsed_usize(s: Seq<char>) -> Option<usize> {
    let d = if s.len() > 0 && s[0] == '+' {
        s.drop_first()
    } else {
        s
    };
    if all_digits(d) && digits_value(d) <= usize::MAX {
        Some(digits_value(d) as usize)
    } else {
        None
    }
}

/// Calls `str::parse::<usize>`. Trusted: as documented for integer parsing,
/// an optional `+` followed by decimal digits only is read, and anything else,
/// the empty text, or a value past `usize::MAX` is an error.
#[verifier::external_body]
fn parse_usize(s: &str) -> (r: Option<usize>)
    ensures
        r == parsed_usize(s@),
{
    s.parse::<usize>().ok()
}

/// The terminal width to lay out for: the `METEO_COLS` override when it is
/// set and reads as a number (surrounding white space ignored), else the
/// width of the terminal, if output goes to one.
pub open spec fn chosen_width(override_value: Option<Seq<char>>, terminal: Option<usize>) -> Option<usize> {
    match override_value {
        Some(v) => match parsed_usize(trimmed(v)) {
            Some(n) => Some(n),
            None => terminal,
        },
        None => terminal,
    }
}

/// Chooses the terminal width from the `METEO_COLS` override (when set) and
/// the terminal's own width (when output goes to a terminal).
pub fn terminal_width(override_value: Option<&str>, terminal: Option<usize>) -> (r: Option<usize>)
    ensures
        r == chosen_width(
            match override_value {
                Some(v) => Some(v@),
                None => None,
            },
            terminal,
        ),
{
    match override_value {
        Some(v) => match parse_usize(trim_text(v)) {
            Some(n) => Some(n),
            None => terminal,
        },
        None => terminal,
    }
}

/// Default for settings that are on unless configured otherwise.
pub fn default_true() -> (r: bool)
    ensures
        r,
{
    true
}

/// Writing a number in decimal and reading it back gives the number: the text
/// is digits only, with no leading zero.
pub proof fn law_decimal_round_trip(n: nat)
    ensures
        all_digits(decimal(n)),
        digits_value(decimal(n)) == n,
        n > 0 ==> decimal(n)[0] != '0',
    decreases n,
{
    if n >= 10 {
        law_decimal_round_trip(n / 10);
        let d = decimal(n);
        assert(d.drop_last() =~= decimal(n / 10));
        assert(d[0] == decimal(n / 10)[0]);
        let c = crate::text::digit_char(n % 10);
        assert((c as u32) == n % 10 + 48);
        assert(d.last() == c);
        assert(digits_value(d) == digits_value(d.drop_last()) * 10 + n % 10);
        assert(n == (n / 10) * 10 + n % 10);
        assert forall|i: int| 0 <= i < d.len() implies '0' <= #[trigger] d[i] <= '9' by {
            if i < d.len() - 1 {
                assert(d[i] == decimal(n / 10)[i]);
            }
        }
    } else {
        let c = crate::text::digit_char(n);
        assert((c as u32) == n + 48);
        assert(decimal(n).drop_last() =~= Seq::<char>::empty());
        assert(digits_value(Seq::<char>::empty()) == 0);
        assert(decimal(n).last() == c);
    }
}

} // verus!
