//! Command-line arguments, help text and the report line.

use vstd::prelude::*;
use vstd::string::*;

use crate::stats::{stats_of, CountMode, FileStats};

verus! {

/// The fixed usage block.
pub const USAGE: &'static str = "Usage:
  mini_wc <file>
  mini_wc -l <file>   # lines
  mini_wc -w <file>   # words
  mini_wc -c <file>   # bytes
  mini_wc -m <file>   # chars (unicode)
  mini_wc --help
";

/// The reason given when no file path was supplied.
pub const MISSING_PATH: &'static str = "missing file path";

/// The help message: the usage block, preceded by the reason and a blank
/// line when a reason is given.
pub open spec fn help_text(reason: Seq<char>) -> Seq<char> {
    if reason.len() == 0 {
        USAGE@
    } else {
        reason + "\n\n"@ + USAGE@
    }
}

/// The mode that a flag selects, if the argument is one.
pub open spec fn mode_flag(a: Seq<char>) -> Option<CountMode> {
    if a == "-l"@ {
        Some(CountMode::Lines)
    } else if a == "-w"@ {
        Some(CountMode::Words)
    } else if a == "-c"@ {
        Some(CountMode::Bytes)
    } else if a == "-m"@ {
        Some(CountMode::Chars)
    } else {
        None
    }
}

/// Whether the argument asks for help.
pub open spec fn is_help(a: Seq<char>) -> bool {
    a == "--help"@ || a == "-h"@
}

/// Whether the argument is a flag rather than a file path.
pub open spec fn is_flag(a: Seq<char>) -> bool {
    is_help(a) || mode_flag(a) is Some
}

/// The mode selected by `args[1..n]`: the last mode flag, or `All`.
pub open spec fn mode_after(args: Seq<Seq<char>>, n: int) -> CountMode
    decreases n,
{
    if n <= 1 {
        CountMode::All
    } else {
        match mode_flag(args[n - 1]) {
            Some(m) => m,
            None => mode_after(args, n - 1),
        }
    }
}

/// The file path given by `args[1..n]`: the last argument that is no flag.
pub open spec fn file_after(args: Seq<Seq<char>>, n: int) -> Option<Seq<char>>
    decreases n,
{
    if n <= 1 {
        None
    } else if is_flag(args[n - 1]) {
        file_after(args, n - 1)
    } else {
        Some(args[n - 1])
    }
}

/// Whether any of `args[1..n]` asks for help.
pub open spec fn help_after(args: Seq<Seq<char>>, n: int) -> bool
    decreases n,
{
    if n <= 1 {
        false
    } else {
        is_help(args[n - 1]) || help_after(args, n - 1)
    }
}

/// What the argument list (program name first) asks for: a mode and a file
/// path, or the help message to show instead.
pub open spec fn parsed(args: Seq<Seq<char>>) -> Result<(CountMode, Seq<char>), Seq<char>> {
    let n = args.len() as int;
    if n <= 1 {
        Err(help_text(MISSING_PATH@))
    } else if help_after(args, n) {
        Err(help_text(Seq::empty()))
    } else {
        match file_after(args, n) {
            Some(f) => Ok((mode_after(args, n), f)),
            None => Err(help_text(MISSING_PATH@)),
        }
    }
}

/// The text of each argument.
pub open spec fn arg_views(args: Seq<String>) -> Seq<Seq<char>> {
    args.map_values(|s: String| s@)
}

/// The digit character for `d < 10`.
pub open spec fn digit_char(d: nat) -> char {
    ((d + 48) as u8) as char
}

/// The decimal digits of `n`, without leading zeros.
pub open spec fn decimal(n: nat) -> Seq<char>
    decreases n,
{
    if n < 10 {
        seq![digit_char(n)]
    } else {
        decimal(n / 10).push(digit_char(n % 10))
    }
}

/// The report line for `s` in `mode`: the selected counts, two spaces and
/// the file path.
pub open spec fn render(s: FileStats, mode: CountMode, file: Seq<char>) -> Seq<char> {
    let counts = match mode {
        CountMode::All => "lines="@ + decimal(s.lines as nat) + " words="@ + decimal(
            s.words as nat,
        ) + " bytes="@ + decimal(s.bytes as nat) + " chars="@ + decimal(s.chars as nat),
        CountMode::Lines => "lines="@ + decimal(s.lines as nat),
        CountMode::Words => "words="@ + decimal(s.words as nat),
        CountMode::Bytes => "bytes="@ + decimal(s.bytes as nat),
        CountMode::Chars => "chars="@ + decimal(s.chars as nat),
    };
    counts + "  "@ + file
}

/// The message for a file that could not be read.
pub open spec fn read_error_text(file: Seq<char>, cause: Seq<char>) -> Seq<char> {
    "cannot read "@ + file + ": "@ + cause
}

/// Relies on `String::push`: appends one character to the end of the string.
#[verifier::external_body]
fn push_char(s: &mut String, c: char)
    ensures
        final(s)@ == old(s)@.push(c),
{
    s.push(c);
}

/// Appends the decimal digits of `n` to `s`.
fn push_decimal(s: &mut String, n: usize)
    ensures
        final(s)@ == old(s)@ + decimal(n as nat),
    decreases n,
{
    if n >= 10 {
        push_decimal(s, n / 10);
    }
    let d = (n % 10) as u8;
    push_char(s, (d + 48) as char);
    proof {
        assert(old(s)@ + decimal(n as nat) =~= final(s)@);
    }
}

/// Whether the argument is exactly the token `tok`.
fn is_token(arg: &String, tok: &str) -> (r: bool)
    ensures
        r == (arg@ == tok@),
{
    let t = String::from_str(tok);
    *arg == t
}

/// The help message for `reason`; an empty reason gives the bare usage block.
pub fn help_message(reason: &str) -> (r: String)
    ensures
        r@ == help_text(reason@),
{
    let mut msg = String::new();
    if !reason.is_empty() {
        msg.append(reason);
        msg.append("\n\n");
    }
    msg.append(USAGE);
    proof {
        if reason@.len() == 0 {
            assert(Seq::<char>::empty() + USAGE@ =~= USAGE@);
        }
    }
    msg
}

/// Reads the mode and the file path from the argument list (program name
/// first), or returns the help message to show instead.
pub fn parse_args(args: &[String]) -> (r: Result<(CountMode, String), String>)
    ensures
        match r {
            Ok((m, f)) => parsed(arg_views(args@)) == Ok::<(CountMode, Seq<char>), Seq<char>>(
                (m, f@),
            ),
            Err(e) => parsed(arg_views(args@)) == Err::<(CountMode, Seq<char>), Seq<char>>(e@),
        },
{
    let ghost v = arg_views(args@);
    if args.len() <= 1 {
        return Err(help_message(MISSING_PATH));
    }
    let mut mode = CountMode::All;
    let mut file: Option<String> = None;
    let mut i: usize = 1;
    while i < args.len()
        invariant
            v == arg_views(args@),
            v.len() == args@.len(),
            1 <= i <= args@.len(),
            mode == mode_after(v, i as int),
            !help_after(v, i as int),
            match file {
                Some(f) => file_after(v, i as int) == Some(f@),
                None => file_after(v, i as int) is None,
            },
        decreases args@.len() - i,
    {
        let arg = &args[i];
        assert(v[i as int] == arg@);
        if is_token(arg, "--help") || is_token(arg, "-h") {
            proof {
                reveal_strlit("");
                assert(help_after(v, i + 1));
            }
            let e = help_message("");
            assert(parsed(v) == Err::<(CountMode, Seq<char>), Seq<char>>(e@)) by {
                lemma_help_stays(v, i + 1, v.len() as int);
            }
            return Err(e);
        } else if is_token(arg, "-l") {
            mode = CountMode::Lines;
        } else if is_token(arg, "-w") {
            mode = CountMode::Words;
        } else if is_token(arg, "-c") {
            mode = CountMode::Bytes;
        } else if is_token(arg, "-m") {
            mode = CountMode::Chars;
        } else {
            file = Some(arg.clone());
        }
        i = i + 1;
    }
    match file {
        Some(f) => Ok((mode, f)),
        None => Err(help_message(MISSING_PATH)),
    }
}

/// Once an argument asks for help, every longer prefix does too.
proof fn lemma_help_stays(args: Seq<Seq<char>>, m: int, n: int)
    requires
        1 < m <= n,
        help_after(args, m),
    ensures
        help_after(args, n),
    decreases n - m,
{
    if m < n {
        lemma_help_stays(args, m, n - 1);
    }
}

/// The argument scan looks at `args[1..n]` alone.
proof fn lemma_scan_prefix(a: Seq<Seq<char>>, b: Seq<Seq<char>>, n: int)
    requires
        0 <= n <= a.len(),
        n <= b.len(),
        a.subrange(0, n) == b.subrange(0, n),
    ensures
        mode_after(a, n) == mode_after(b, n),
        file_after(a, n) == file_after(b, n),
        help_after(a, n) == help_after(b, n),
    decreases n,
{
    if n > 1 {
        assert(a.subrange(0, n)[n - 1] == a[n - 1]);
        assert(b.subrange(0, n)[n - 1] == b[n - 1]);
        assert(a.subrange(0, n - 1) =~= a.subrange(0, n).subrange(0, n - 1));
        assert(b.subrange(0, n - 1) =~= b.subrange(0, n).subrange(0, n - 1));
        lemma_scan_prefix(a, b, n - 1);
    }
}

/// No mode flag asks for help.
proof fn lemma_mode_flag_not_help(a: Seq<char>)
    requires
        mode_flag(a) is Some,
    ensures
        !is_help(a),
{
    reveal_strlit("-l");
    reveal_strlit("-w");
    reveal_strlit("-c");
    reveal_strlit("-m");
    reveal_strlit("-h");
    reveal_strlit("--help");
    assert("--help"@.len() == 6);
    assert(a.len() == 2);
    assert("-h"@[1] == 'h');
    assert(a[1] != 'h');
}

/// The scan of `p + [f1, f2] + r` and of `p + [f2] + r` agree once both have
/// passed `f2` and the first `k` arguments of `r`.
proof fn lemma_scan_shift(
    p: Seq<Seq<char>>,
    f1: Seq<char>,
    f2: Seq<char>,
    r: Seq<Seq<char>>,
    k: int,
)
    requires
        p.len() >= 1,
        mode_flag(f1) is Some,
        mode_flag(f2) is Some,
        0 <= k <= r.len(),
    ensures
        ({
            let a = p + seq![f1, f2] + r;
            let b = p + seq![f2] + r;
            let m = p.len() as int;
            &&& mode_after(a, m + 2 + k) == mode_after(b, m + 1 + k)
            &&& file_after(a, m + 2 + k) == file_after(b, m + 1 + k)
            &&& help_after(a, m + 2 + k) == help_after(b, m + 1 + k)
        }),
    decreases k,
{
    let a = p + seq![f1, f2] + r;
    let b = p + seq![f2] + r;
    let m = p.len() as int;
    if k == 0 {
        lemma_mode_flag_not_help(f1);
        lemma_mode_flag_not_help(f2);
        assert(a[m] == f1);
        assert(a[m + 1] == f2);
        assert(b[m] == f2);
        assert(!is_help(f1) && !is_help(f2));
        assert(a.subrange(0, m) =~= b.subrange(0, m));
        lemma_scan_prefix(a, b, m);
        assert(file_after(a, m + 1) == file_after(a, m));
        assert(help_after(a, m + 1) == help_after(a, m));
    } else {
        assert(a[m + 2 + k - 1] == r[k - 1]);
        assert(b[m + 1 + k - 1] == r[k - 1]);
        lemma_scan_shift(p, f1, f2, r, k - 1);
    }
}

/// The last mode flag wins: a mode flag directly followed by another mode
/// flag has no effect on what the argument list asks for.
pub proof fn lemma_last_flag_wins(
    p: Seq<Seq<char>>,
    f1: Seq<char>,
    f2: Seq<char>,
    r: Seq<Seq<char>>,
)
    requires
        p.len() >= 1,
        mode_flag(f1) is Some,
        mode_flag(f2) is Some,
    ensures
        parsed(p + seq![f1, f2] + r) == parsed(p + seq![f2] + r),
{
    lemma_scan_shift(p, f1, f2, r, r.len() as int);
}

/// The report line for `stats` in `mode`.
pub fn format_output(stats: &FileStats, mode: CountMode, file: &str) -> (r: String)
    ensures
        r@ == render(*stats, mode, file@),
{
    let mut out = String::new();
    match mode {
        CountMode::All => {
            out.append("lines=");
            push_decimal(&mut out, stats.lines);
            out.append(" words=");
            push_decimal(&mut out, stats.words);
            out.append(" bytes=");
            push_decimal(&mut out, stats.bytes);
            out.append(" chars=");
            push_decimal(&mut out, stats.chars);
        },
        CountMode::Lines => {
            out.append("lines=");
            push_decimal(&mut out, stats.lines);
        },
        CountMode::Words => {
            out.append("words=");
            push_decimal(&mut out, stats.words);
        },
        CountMode::Bytes => {
            out.append("bytes=");
            push_decimal(&mut out, stats.bytes);
        },
        CountMode::Chars => {
            out.append("chars=");
            push_decimal(&mut out, stats.chars);
        },
    }
    out.append("  ");
    out.append(file);
    proof {
        assert(Seq::<char>::empty() + "lines="@ =~= "lines="@);
        assert(Seq::<char>::empty() + "words="@ =~= "words="@);
        assert(Seq::<char>::empty() + "bytes="@ =~= "bytes="@);
        assert(Seq::<char>::empty() + "chars="@ =~= "chars="@);
    }
    out
}

/// The report line for the contents `bytes` of `file` in `mode`.
pub fn report(bytes: &[u8], mode: CountMode, file: &str) -> (r: String)
    ensures
        r@ == render(stats_of(bytes@), mode, file@),
{
    let stats = FileStats::from_bytes(bytes);
    format_output(&stats, mode, file)
}

/// The message for a file that could not be read, with the cause.
pub fn read_error(file: &str, cause: &str) -> (r: String)
    ensures
        r@ == read_error_text(file@, cause@),
{
    let mut msg = String::new();
    msg.append("cannot read ");
    msg.append(file);
    msg.append(": ");
    msg.append(cause);
    proof {
        assert(Seq::<char>::empty() + "cannot read "@ =~= "cannot read "@);
    }
    msg
}

} // verus!
