use vstd::prelude::*;

use crate::token::Token;

verus! {

/// A digit value as its decimal character.
pub open spec fn spec_digit(d: int) -> char {
    if d == 0 {
        '0'
    } else if d == 1 {
        '1'
    } else if d == 2 {
        '2'
    } else if d == 3 {
        '3'
    } else if d == 4 {
        '4'
    } else if d == 5 {
        '5'
    } else if d == 6 {
        '6'
    } else if d == 7 {
        '7'
    } else if d == 8 {
        '8'
    } else {
        '9'
    }
}

/// The usual decimal spelling of a natural number, without leading zeros.
pub open spec fn spec_decimal(n: nat) -> Seq<char>
    decreases n,
    via spec_decimal_decreases
{
    if n < 10 {
        seq![spec_digit(n as int)]
    } else {
        spec_decimal(n / 10) + seq![spec_digit((n % 10) as int)]
    }
}

#[via_fn]
proof fn spec_decimal_decreases(n: nat) {
    assert(n >= 10 ==> n / 10 < n) by (nonlinear_arith);
}

fn digit_str(d: usize) -> (r: &'static str)
    requires
        d < 10,
    ensures
        r@ == seq![spec_digit(d as int)],
{
    if d == 0 {
        proof {
            reveal_strlit("0");
            assert("0"@ =~= seq![spec_digit(0)]);
        }
        "0"
    } else if d == 1 {
        proof {
            reveal_strlit("1");
            assert("1"@ =~= seq![spec_digit(1)]);
        }
        "1"
    } else if d == 2 {
        proof {
            reveal_strlit("2");
            assert("2"@ =~= seq![spec_digit(2)]);
        }
        "2"
    } else if d == 3 {
        proof {
            reveal_strlit("3");
            assert("3"@ =~= seq![spec_digit(3)]);
        }
        "3"
    } else if d == 4 {
        proof {
            reveal_strlit("4");
            assert("4"@ =~= seq![spec_digit(4)]);
        }
        "4"
    } else if d == 5 {
        proof {
            reveal_strlit("5");
            assert("5"@ =~= seq![spec_digit(5)]);
        }
        "5"
    } else if d == 6 {
        proof {
            reveal_strlit("6");
            assert("6"@ =~= seq![spec_digit(6)]);
        }
        "6"
    } else if d == 7 {
        proof {
            reveal_strlit("7");
            assert("7"@ =~= seq![spec_digit(7)]);
        }
        "7"
    } else if d == 8 {
        proof {
            reveal_strlit("8");
            assert("8"@ =~= seq![spec_digit(8)]);
        }
        "8"
    } else {
        proof {
            reveal_strlit("9");
            assert("9"@ =~= seq![spec_digit(9)]);
        }
        "9"
    }
}

/// Renders a line number for a diagnostic.
pub fn render_usize(n: usize) -> (s: String)
    ensures
        s@ == spec_decimal(n as nat),
    decreases n,
{
    if n < 10 {
        digit_str(n).to_owned()
    } else {
        proof {
            assert(n / 10 < n) by (nonlinear_arith)
                requires
                    n >= 10,
            ;
        }
        let mut s = render_usize(n / 10);
        s.append(digit_str(n % 10));
        proof {
            assert(s@ =~= spec_decimal(n as nat));
        }
        s
    }
}

/// The reporter-originated diagnostic form `[line {line}] Error{location}: {message}`.
pub open spec fn spec_report_line(line: nat, location: Seq<char>, message: Seq<char>) -> Seq<char> {
    "[line "@ + spec_decimal(line) + "] Error"@ + location + ": "@ + message
}

/// The distinct diagnostic form `[line {line}] Unterminated string.`.
pub open spec fn spec_unterminated_line(line: nat) -> Seq<char> {
    "[line "@ + spec_decimal(line) + "] Unterminated string."@
}

fn render_report_line(line: usize, location: &str, message: &str) -> (s: String)
    ensures
        s@ == spec_report_line(line as nat, location@, message@),
{
    let mut s = "[line ".to_owned();
    let num = render_usize(line);
    s.append(num.as_str());
    s.append("] Error");
    s.append(location);
    s.append(": ");
    s.append(message);
    proof {
        assert(s@ =~= spec_report_line(line as nat, location@, message@));
    }
    s
}

fn render_unterminated_line(line: usize) -> (s: String)
    ensures
        s@ == spec_unterminated_line(line as nat),
{
    let mut s = "[line ".to_owned();
    let num = render_usize(line);
    s.append(num.as_str());
    s.append("] Unterminated string.");
    proof {
        assert(s@ =~= spec_unterminated_line(line as nat));
    }
    s
}

/// Errors of later pipeline stages; the scanning core never produces one,
/// but the reporter already accepts them.
pub enum Error {
    RuntimeError(RuntimeError),
}

pub struct RuntimeError {
    pub token: Token,
    pub message: String,
}

/// A process-local sink that records whether a lexical (or runtime) error
/// occurred and keeps each rendered diagnostic line; a driver prints the
/// lines and decides the exit status. Reporting never halts a scan.
pub struct ErrorReporter {
    pub had_error: bool,
    pub had_runtime_error: bool,
    pub diagnostics: Vec<String>,
}

impl ErrorReporter {
    /// The rendered diagnostic lines, as character sequences.
    pub open spec fn spec_lines(&self) -> Seq<Seq<char>> {
        self.diagnostics@.map_values(|s: String| s@)
    }

    pub fn new() -> (r: Self)
        ensures
            !r.had_error,
            !r.had_runtime_error,
            r.spec_lines() == Seq::<Seq<char>>::empty(),
    {
        let r = Self { had_error: false, had_runtime_error: false, diagnostics: Vec::new() };
        proof {
            assert(r.spec_lines() =~= Seq::<Seq<char>>::empty());
        }
        r
    }

    /// Records a lexical error at the given line.
    pub fn error(&mut self, line: usize, message: &str)
        ensures
            final(self).had_error,
            final(self).had_runtime_error == old(self).had_runtime_error,
            final(self).spec_lines() == old(self).spec_lines().push(
                spec_report_line(line as nat, Seq::<char>::empty(), message@),
            ),
    {
        self.report(line, "", message);
        proof {
            reveal_strlit("");
            assert(""@ =~= Seq::<char>::empty());
        }
    }

    /// Records a runtime error. The location field is deliberately left
    /// empty: repeating the message there would only duplicate it.
    pub fn runtime_error(&mut self, error: RuntimeError)
        ensures
            final(self).had_error,
            final(self).had_runtime_error,
            final(self).spec_lines() == old(self).spec_lines().push(
                spec_report_line(error.token.line as nat, Seq::<char>::empty(), error.message@),
            ),
    {
        let line = error.token.line;
        self.report(line, "", error.message.as_str());
        self.had_runtime_error = true;
        proof {
            reveal_strlit("");
            assert(""@ =~= Seq::<char>::empty());
        }
    }

    /// Records the unterminated-string condition, whose diagnostic line has
    /// its own distinct form.
    pub fn unterminated_string(&mut self, line: usize)
        ensures
            final(self).had_error,
            final(self).had_runtime_error == old(self).had_runtime_error,
            final(self).spec_lines() == old(self).spec_lines().push(
                spec_unterminated_line(line as nat),
            ),
    {
        let s = render_unterminated_line(line);
        self.diagnostics.push(s);
        self.had_error = true;
        proof {
            assert(self.spec_lines() =~= old(self).spec_lines().push(
                spec_unterminated_line(line as nat),
            ));
        }
    }

    fn report(&mut self, line: usize, location: &str, message: &str)
        ensures
            final(self).had_error,
            final(self).had_runtime_error == old(self).had_runtime_error,
            final(self).spec_lines() == old(self).spec_lines().push(
                spec_report_line(line as nat, location@, message@),
            ),
    {
        let s = render_report_line(line, location, message);
        self.diagnostics.push(s);
        self.had_error = true;
        proof {
            assert(self.spec_lines() =~= old(self).spec_lines().push(
                spec_report_line(line as nat, location@, message@),
            ));
        }
    }
}

} // verus!
