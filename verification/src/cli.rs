//! The command line.

use vstd::prelude::*;
use vstd::string::*;

verus! {

/// What the program is to do.
pub struct Config {
    pub port: String,
    pub baud: u32,
    pub mode: RunMode,
}

/// The two ends of the line.
#[derive(Debug, Clone, Copy, PartialEq, Eq, Structural)]
pub enum RunMode {
    Receiver,
    Sender { rows_a: u8, cols_a: u8, cols_b: u8, count: u32 },
}

/// What a command line asks for.
pub enum Parsed {
    Help,
    Run(Config),
}

/// The value of a run of decimal digits.
pub open spec fn digits_value(s: Seq<char>) -> nat
    decreases s.len(),
{
    if s.len() == 0 {
        0
    } else {
        digits_value(s.drop_last()) * 10 + (s.last() as nat - 48) as nat
    }
}

/// The character is a decimal digit.
pub open spec fn is_digit(c: char) -> bool {
    48 <= c as nat <= 57
}

/// The digits of a number, behind an optional plus sign.
pub open spec fn digits_of(s: Seq<char>) -> Seq<char> {
    if s.len() > 0 && s[0] == '+' {
        s.skip(1)
    } else {
        s
    }
}

/// The number that `s` stands for, if it is one and at most `max`.
pub open spec fn number_of(s: Seq<char>, max: nat) -> Option<nat> {
    let d = digits_of(s);
    if d.len() > 0 && (forall|i: int| 0 <= i < d.len() ==> is_digit(#[trigger] d[i]))
        && digits_value(d) <= max {
        Some(digits_value(d))
    } else {
        None
    }
}

/// `number_of`, or `default` where there is none.
pub open spec fn number_or(s: Seq<char>, max: nat, default: nat) -> nat {
    match number_of(s, max) {
        Some(n) => n,
        None => default,
    }
}

/// A longer run of digits is worth no less.
proof fn lemma_digits_grow(s: Seq<char>, n: int)
    requires
        0 <= n <= s.len(),
        forall|i: int| 0 <= i < s.len() ==> is_digit(#[trigger] s[i]),
    ensures
        digits_value(s.take(n)) <= digits_value(s),
    decreases s.len(),
{
    if n == s.len() {
        assert(s.take(n) =~= s);
    } else {
        let t = s.drop_last();
        lemma_digits_grow(t, n);
        assert(t.take(n) =~= s.take(n));
        assert(digits_value(s) >= digits_value(t) * 10);
    }
}

/// The number that `s` stands for, or `default`.
fn parse_number(s: &str, max: u32, default: u32) -> (r: u32)
    requires
        default <= max,
    ensures
        r == number_or(s@, max as nat, default as nat),
        r <= max,
{
    let len = s.unicode_len();
    let start: usize = if len > 0 && s.get_char(0) == '+' {
        1
    } else {
        0
    };
    let ghost d = digits_of(s@);
    assert(d =~= s@.skip(start as int));
    if start == len {
        return default;
    }
    let mut value: u64 = 0;
    let mut i: usize = start;
    assert(d.take(0) =~= Seq::<char>::empty());
    while i < len
        invariant
            start <= i <= len == s@.len(),
            d == s@.skip(start as int),
            value <= max,
            default <= max,
            value == digits_value(d.take(i - start)),
            forall|k: int| 0 <= k < i - start ==> is_digit(#[trigger] d[k]),
            d == digits_of(s@),
        decreases len - i,
    {
        let c = s.get_char(i);
        let code = c as u32;
        assert(d[i - start] == c);
        if code < 48 || code > 57 {
            assert(!is_digit(d[i - start]));
            return default;
        }
        value = value * 10 + (code as u64 - 48);
        proof {
            let t = d.take(i + 1 - start);
            assert(t.drop_last() =~= d.take(i - start));
            assert(t.last() == c);
        }
        if value > max as u64 {
            proof {
                if forall|k: int| 0 <= k < d.len() ==> is_digit(#[trigger] d[k]) {
                    lemma_digits_grow(d, i + 1 - start);
                }
            }
            return default;
        }
        i += 1;
    }
    assert(d.take(len - start) =~= d);
    value as u32
}

/// The choices made so far.
#[verifier::ext_equal]
pub struct Choices {
    pub port: Seq<char>,
    pub baud: nat,
    pub mode: Seq<char>,
    pub rows_a: nat,
    pub cols_a: nat,
    pub cols_b: nat,
    pub count: nat,
}

impl Choices {
    /// What holds where nothing is said.
    pub open spec fn defaults() -> Choices {
        Choices {
            port: "/dev/ttyS0"@,
            baud: 115200,
            mode: "receiver"@,
            rows_a: 2,
            cols_a: 3,
            cols_b: 2,
            count: 1,
        }
    }

    /// The choices after `flag` with `value`. A number that is none counts as the default.
    pub open spec fn with(self, flag: Seq<char>, value: Seq<char>) -> Choices {
        if flag == "--port"@ || flag == "-p"@ {
            Choices { port: value, ..self }
        } else if flag == "--baud"@ || flag == "-b"@ {
            Choices { baud: number_or(value, u32::MAX as nat, 115200), ..self }
        } else if flag == "--mode"@ || flag == "-m"@ {
            Choices { mode: value, ..self }
        } else if flag == "--rows-a"@ {
            Choices { rows_a: number_or(value, 255, 2), ..self }
        } else if flag == "--cols-a"@ {
            Choices { cols_a: number_or(value, 255, 3), ..self }
        } else if flag == "--cols-b"@ {
            Choices { cols_b: number_or(value, 255, 2), ..self }
        } else {
            Choices { count: number_or(value, u32::MAX as nat, 1), ..self }
        }
    }
}

/// The argument is followed by a value.
pub open spec fn takes_value(flag: Seq<char>) -> bool {
    ||| flag == "--port"@ || flag == "-p"@
    ||| flag == "--baud"@ || flag == "-b"@
    ||| flag == "--mode"@ || flag == "-m"@
    ||| flag == "--rows-a"@
    ||| flag == "--cols-a"@
    ||| flag == "--cols-b"@
    ||| flag == "--count"@ || flag == "-c"@
}

/// The argument asks for help.
pub open spec fn asks_for_help(flag: Seq<char>) -> bool {
    flag == "--help"@ || flag == "-h"@
}

/// The choices that the arguments from `i` on make, after `c`; `None` if help is asked for. A
/// flag without its value and anything unknown is passed over.
pub open spec fn choices_from(args: Seq<Seq<char>>, i: nat, c: Choices) -> Option<Choices>
    decreases args.len() - i,
{
    if i >= args.len() {
        Some(c)
    } else if takes_value(args[i as int]) {
        if i + 1 < args.len() {
            choices_from(args, i + 2, c.with(args[i as int], args[i as int + 1]))
        } else {
            Some(c)
        }
    } else if asks_for_help(args[i as int]) {
        None
    } else {
        choices_from(args, i + 1, c)
    }
}

/// The configuration stands for the choices.
pub open spec fn is_config(config: Config, c: Choices) -> bool {
    &&& config.port@ == c.port
    &&& config.baud == c.baud
    &&& if c.mode == "sender"@ {
        config.mode == (RunMode::Sender {
            rows_a: c.rows_a as u8,
            cols_a: c.cols_a as u8,
            cols_b: c.cols_b as u8,
            count: c.count as u32,
        })
    } else {
        config.mode == RunMode::Receiver
    }
}

/// The arguments as character sequences.
pub open spec fn words_of(args: Seq<String>) -> Seq<Seq<char>> {
    Seq::new(args.len(), |i: int| args[i]@)
}

/// The argument is `word`.
fn is(arg: &String, word: &str) -> (r: bool)
    ensures
        r == (arg@ == word@),
{
    *arg == String::from_str(word)
}

/// What the command line asks for. The first of `args` is the program's name.
pub fn parse_args(args: &Vec<String>) -> (r: Parsed)
    ensures
        match choices_from(words_of(args@), 1, Choices::defaults()) {
            Some(c) => r matches Parsed::Run(config) && is_config(config, c),
            None => r is Help,
        },
{
    let mut port = String::from_str("/dev/ttyS0");
    let mut baud: u32 = 115200;
    let mut mode = String::from_str("receiver");
    let mut rows_a: u8 = 2;
    let mut cols_a: u8 = 3;
    let mut cols_b: u8 = 2;
    let mut count: u32 = 1;
    let ghost words = words_of(args@);
    let ghost goal = choices_from(words, 1, Choices::defaults());
    let ghost mut now = Choices::defaults();
    let mut i: usize = 1;
    proof {
        lemma_flags_differ();
    }
    while i < args.len()
        invariant
            i <= args.len() || i == 1,
            words == words_of(args@),
            goal == choices_from(words, 1, Choices::defaults()),
            goal == choices_from(words, i as nat, now),
            now == (Choices {
                port: port@,
                baud: baud as nat,
                mode: mode@,
                rows_a: rows_a as nat,
                cols_a: cols_a as nat,
                cols_b: cols_b as nat,
                count: count as nat,
            }),
        decreases args.len() - i,
    {
        proof {
            lemma_flags_differ();
        }
        let arg = &args[i];
        assert(words[i as int] == arg@);
        if is(arg, "--help") || is(arg, "-h") {
            return Parsed::Help;
        }
        let valued = is(arg, "--port") || is(arg, "-p") || is(arg, "--baud") || is(arg, "-b") || is(
            arg,
            "--mode",
        ) || is(arg, "-m") || is(arg, "--rows-a") || is(arg, "--cols-a") || is(arg, "--cols-b")
            || is(arg, "--count") || is(arg, "-c");
        if !valued {
            i += 1;
            continue;
        }
        if i + 1 >= args.len() {
            i = args.len();
            continue;
        }
        let value = &args[i + 1];
        assert(words[i + 1] == value@);
        if is(arg, "--port") || is(arg, "-p") {
            port = String::from_str(value.as_str());
        } else if is(arg, "--baud") || is(arg, "-b") {
            baud = parse_number(value.as_str(), u32::MAX, 115200);
        } else if is(arg, "--mode") || is(arg, "-m") {
            mode = String::from_str(value.as_str());
        } else if is(arg, "--rows-a") {
            rows_a = parse_number(value.as_str(), 255, 2) as u8;
        } else if is(arg, "--cols-a") {
            cols_a = parse_number(value.as_str(), 255, 3) as u8;
        } else if is(arg, "--cols-b") {
            cols_b = parse_number(value.as_str(), 255, 2) as u8;
        } else {
            count = parse_number(value.as_str(), u32::MAX, 1);
        }
        proof {
            now = now.with(arg@, value@);
        }
        i += 2;
    }
    let run_mode = if is(&mode, "sender") {
        RunMode::Sender { rows_a, cols_a, cols_b, count }
    } else {
        RunMode::Receiver
    };
    Parsed::Run(Config { port, baud, mode: run_mode })
}

/// The number behind the last `long` or `short` among the arguments from `i` on; `now` where
/// there is none. A number that is none counts as `default`.
pub open spec fn number_from(
    args: Seq<Seq<char>>,
    i: nat,
    long: Seq<char>,
    short: Seq<char>,
    default: nat,
    now: nat,
) -> nat
    decreases args.len() - i,
{
    if i + 1 >= args.len() {
        now
    } else if args[i as int] == long || args[i as int] == short {
        number_from(
            args,
            i + 2,
            long,
            short,
            default,
            number_or(args[i as int + 1], u32::MAX as nat, default),
        )
    } else {
        number_from(args, i + 1, long, short, default, now)
    }
}

/// The number that the command line of a measuring program gives for a flag, such as the count
/// in `uintr-sender -c 100000`; `default` where it gives none. The first of `args` is the
/// program's name.
pub fn flag_number(args: &Vec<String>, long: &str, short: &str, default: u32) -> (r: u32)
    ensures
        r == number_from(words_of(args@), 1, long@, short@, default as nat, default as nat),
{
    let ghost words = words_of(args@);
    let ghost goal = number_from(words, 1, long@, short@, default as nat, default as nat);
    let mut number = default;
    let mut i: usize = 1;
    while i < args.len() && i + 1 < args.len()
        invariant
            words == words_of(args@),
            goal == number_from(
                words,
                i as nat,
                long@,
                short@,
                default as nat,
                number as nat,
            ),
        decreases args.len() - i,
    {
        assert(words[i as int] == args@[i as int]@);
        assert(words[i + 1] == args@[i + 1]@);
        if is(&args[i], long) || is(&args[i], short) {
            number = parse_number(args[i + 1].as_str(), u32::MAX, default);
            i += 2;
        } else {
            i += 1;
        }
    }
    number
}

/// No flag that takes a value asks for help.
proof fn lemma_flags_differ()
    ensures
        !takes_value("--help"@),
        !takes_value("-h"@),
{
    reveal_strlit("--help");
    reveal_strlit("-h");
    reveal_strlit("--port");
    reveal_strlit("-p");
    reveal_strlit("--baud");
    reveal_strlit("-b");
    reveal_strlit("--mode");
    reveal_strlit("-m");
    reveal_strlit("--rows-a");
    reveal_strlit("--cols-a");
    reveal_strlit("--cols-b");
    reveal_strlit("--count");
    reveal_strlit("-c");
    assert("-h"@[1] == 'h');
    assert("-p"@[1] == 'p' && "-b"@[1] == 'b' && "-m"@[1] == 'm' && "-c"@[1] == 'c');
    assert("--help"@[2] == 'h');
    assert("--port"@[2] == 'p' && "--baud"@[2] == 'b' && "--mode"@[2] == 'm');
}

/// What tells the flags apart: their lengths and one character each.
proof fn lemma_flag_letters()
    ensures
        "--port"@.len() == 6 && "--port"@[2] == 'p',
        "-p"@.len() == 2 && "-p"@[1] == 'p',
        "--baud"@.len() == 6 && "--baud"@[2] == 'b',
        "-b"@.len() == 2 && "-b"@[1] == 'b',
        "--mode"@.len() == 6 && "--mode"@[2] == 'm',
        "-m"@.len() == 2 && "-m"@[1] == 'm',
        "--rows-a"@.len() == 8 && "--rows-a"@[2] == 'r',
        "--cols-a"@.len() == 8 && "--cols-a"@[2] == 'c',
        "--cols-a"@[7] == 'a',
        "--cols-b"@.len() == 8 && "--cols-b"@[2] == 'c',
        "--cols-b"@[7] == 'b',
        "--count"@.len() == 7 && "--count"@[2] == 'c',
        "-c"@.len() == 2 && "-c"@[1] == 'c',
        "--help"@.len() == 6 && "--help"@[2] == 'h',
        "-h"@.len() == 2 && "-h"@[1] == 'h',
{
    reveal_strlit("--port");
    reveal_strlit("-p");
    reveal_strlit("--baud");
    reveal_strlit("-b");
    reveal_strlit("--mode");
    reveal_strlit("-m");
    reveal_strlit("--rows-a");
    reveal_strlit("--cols-a");
    reveal_strlit("--cols-b");
    reveal_strlit("--count");
    reveal_strlit("-c");
    reveal_strlit("--help");
    reveal_strlit("-h");
}

/// Each flag sets its own choice and no other, and a short flag does what the long one does.
pub proof fn lemma_each_flag_sets_its_choice(c: Choices, value: Seq<char>)
    ensures
        c.with("--port"@, value) == (Choices { port: value, ..c }),
        c.with("-p"@, value) == (Choices { port: value, ..c }),
        c.with("--baud"@, value) == (Choices { baud: number_or(value, 0xFFFF_FFFF, 115200), ..c }),
        c.with("-b"@, value) == (Choices { baud: number_or(value, 0xFFFF_FFFF, 115200), ..c }),
        c.with("--mode"@, value) == (Choices { mode: value, ..c }),
        c.with("-m"@, value) == (Choices { mode: value, ..c }),
        c.with("--rows-a"@, value) == (Choices { rows_a: number_or(value, 255, 2), ..c }),
        c.with("--cols-a"@, value) == (Choices { cols_a: number_or(value, 255, 3), ..c }),
        c.with("--cols-b"@, value) == (Choices { cols_b: number_or(value, 255, 2), ..c }),
        c.with("--count"@, value) == (Choices { count: number_or(value, 0xFFFF_FFFF, 1), ..c }),
        c.with("-c"@, value) == (Choices { count: number_or(value, 0xFFFF_FFFF, 1), ..c }),
{
    lemma_flag_letters();
}

/// The word is one of those that are followed by a value.
pub open spec fn is_valued(w: Seq<char>) -> bool {
    ||| w == "--port"@ || w == "-p"@ || w == "--baud"@ || w == "-b"@ || w == "--mode"@ || w == "-m"@
    ||| w == "--rows-a"@ || w == "--cols-a"@ || w == "--cols-b"@ || w == "--count"@ || w == "-c"@
}

/// What the arguments from one place on say does not depend on those before.
proof fn lemma_only_the_rest_counts(
    a: Seq<Seq<char>>,
    i: nat,
    b: Seq<Seq<char>>,
    j: nat,
    c: Choices,
)
    requires
        i <= a.len(),
        j <= b.len(),
        a.skip(i as int) == b.skip(j as int),
    ensures
        choices_from(a, i, c) == choices_from(b, j, c),
    decreases a.len() - i,
{
    assert(a.skip(i as int).len() == a.len() - i);
    assert(b.skip(j as int).len() == b.len() - j);
    if i < a.len() {
        assert(a[i as int] == a.skip(i as int)[0]);
        assert(b[j as int] == b.skip(j as int)[0]);
        assert(a.skip(i as int).skip(1) =~= a.skip(i as int + 1));
        assert(b.skip(j as int).skip(1) =~= b.skip(j as int + 1));
        if i + 1 < a.len() {
            assert(a[i as int + 1] == a.skip(i as int)[1]);
            assert(b[j as int + 1] == b.skip(j as int)[1]);
            assert(a.skip(i as int).skip(2) =~= a.skip(i as int + 2));
            assert(b.skip(j as int).skip(2) =~= b.skip(j as int + 2));
            lemma_only_the_rest_counts(a, i + 2, b, j + 2, c.with(a[i as int], a[i as int + 1]));
        }
        lemma_only_the_rest_counts(a, i + 1, b, j + 1, c);
    }
}

/// A flag with its value is taken, wherever on the command line it stands: what follows is read
/// as if it had been chosen from the start.
pub proof fn lemma_flag_is_taken(
    name: Seq<char>,
    flag: Seq<char>,
    value: Seq<char>,
    rest: Seq<Seq<char>>,
    c: Choices,
)
    requires
        is_valued(flag),
    ensures
        choices_from(seq![name, flag, value] + rest, 1, c) == choices_from(
            seq![name] + rest,
            1,
            c.with(flag, value),
        ),
{
    lemma_flag_letters();
    let a = seq![name, flag, value] + rest;
    let b = seq![name] + rest;
    assert(a[1] == flag && a[2] == value);
    assert(a.skip(3) =~= rest);
    assert(b.skip(1) =~= rest);
    lemma_only_the_rest_counts(a, 3, b, 1, c.with(flag, value));
}

/// A word that is no flag is passed over, and so is a flag at the end without its value; `--help`
/// and `-h` ask for help.
pub proof fn lemma_other_words(name: Seq<char>, word: Seq<char>, rest: Seq<Seq<char>>, c: Choices)
    ensures
        choices_from(seq![name], 1, c) == Some(c),
        is_valued(word) ==> choices_from(seq![name, word], 1, c) == Some(c),
        word == "--help"@ || word == "-h"@ ==> choices_from(seq![name, word] + rest, 1, c) is None,
        !is_valued(word) && word != "--help"@ && word != "-h"@ ==> choices_from(
            seq![name, word] + rest,
            1,
            c,
        ) == choices_from(seq![name] + rest, 1, c),
{
    lemma_flag_letters();
    let a = seq![name, word] + rest;
    let b = seq![name] + rest;
    assert(a[1] == word);
    assert(a.skip(2) =~= rest);
    assert(b.skip(1) =~= rest);
    lemma_only_the_rest_counts(a, 2, b, 1, c);
}

/// What is chosen is what the program is set to.
pub proof fn lemma_choices_are_kept(config: Config, c: Choices)
    requires
        is_config(config, c),
        c.rows_a <= 255,
        c.cols_a <= 255,
        c.cols_b <= 255,
        c.count <= 0xFFFF_FFFF,
    ensures
        config.port@ == c.port,
        config.baud == c.baud,
        config.mode is Sender <==> c.mode == "sender"@,
        config.mode is Receiver <==> c.mode != "sender"@,
        config.mode matches RunMode::Sender { rows_a, cols_a, cols_b, count } ==> rows_a == c.rows_a
            && cols_a == c.cols_a && cols_b == c.cols_b && count == c.count,
{
}

/// The digits of a number stand for it.
proof fn lemma_decimal_stands_for_number(n: nat)
    ensures
        crate::text::decimal(n).len() > 0,
        digits_value(crate::text::decimal(n)) == n,
        forall|i: int|
            0 <= i < crate::text::decimal(n).len() ==> is_digit(#[trigger] crate::text::decimal(n)[i]),
    decreases n,
{
    let s = crate::text::decimal(n);
    if n < 10 {
        reveal_with_fuel(digits_value, 2);
        assert(s.drop_last() =~= Seq::<char>::empty());
    } else {
        lemma_decimal_stands_for_number(n / 10);
        let before = crate::text::decimal(n / 10);
        assert(s.drop_last() =~= before);
        assert forall|i: int| 0 <= i < s.len() implies is_digit(#[trigger] s[i]) by {
            if i < before.len() {
                assert(s[i] == before[i]);
            }
        }
    }
}

/// A number in base ten is read as that number, with or without a plus sign, if it is not too
/// large; otherwise the default holds.
pub proof fn lemma_numbers_are_read(n: nat, max: nat, default: nat)
    ensures
        number_or(crate::text::decimal(n), max, default) == (if n <= max {
            n
        } else {
            default
        }),
        number_or(seq!['+'] + crate::text::decimal(n), max, default) == (if n <= max {
            n
        } else {
            default
        }),
{
    lemma_decimal_stands_for_number(n);
    let s = crate::text::decimal(n);
    assert(is_digit(s[0]));
    let t = seq!['+'] + s;
    assert(t[0] == '+');
    assert(t.skip(1) =~= s);
}

/// Zeros in front change nothing.
pub proof fn lemma_leading_zeros_do_not_count(s: Seq<char>, max: nat, default: nat)
    requires
        s.len() > 0,
        forall|i: int| 0 <= i < s.len() ==> 48 <= (#[trigger] s[i]) as nat <= 57,
    ensures
        number_or(seq!['0'] + s, max, default) == number_or(s, max, default),
{
    let t = seq!['0'] + s;
    lemma_zero_in_front(s);
    assert(is_digit(s[0]));
    assert forall|i: int| 0 <= i < t.len() implies is_digit(#[trigger] t[i]) by {
        if i > 0 {
            assert(t[i] == s[i - 1]);
        }
    }
}

proof fn lemma_zero_in_front(s: Seq<char>)
    ensures
        digits_value(seq!['0'] + s) == digits_value(s),
    decreases s.len(),
{
    let t = seq!['0'] + s;
    if s.len() == 0 {
        reveal_with_fuel(digits_value, 2);
        assert(t.drop_last() =~= Seq::<char>::empty());
    } else {
        lemma_zero_in_front(s.drop_last());
        assert(t.drop_last() =~= seq!['0'] + s.drop_last());
    }
}

/// What is no number counts as the default: nothing, a plus sign alone, and anything with a
/// character that is no digit, but for a plus sign in front.
pub proof fn lemma_what_is_no_number(s: Seq<char>, i: int, max: nat, default: nat)
    requires
        s.len() == 0 || s == seq!['+'] || (0 <= i < s.len() && !(48 <= s[i] as nat <= 57) && !(i == 0
            && s[0] == '+')),
    ensures
        number_or(s, max, default) == default,
{
    let d = digits_of(s);
    if s.len() > 0 && d.len() > 0 {
        if s[0] == '+' {
            assert(d[i - 1] == s[i]);
        } else {
            assert(d[i] == s[i]);
        }
    }
}

/// The command line of a sender.
pub open spec fn sender_command(
    name: Seq<char>,
    port: Seq<char>,
    baud: nat,
    rows_a: nat,
    cols_a: nat,
    cols_b: nat,
    count: nat,
) -> Seq<Seq<char>> {
    seq![
        name,
        "--port"@,
        port,
        "--baud"@,
        crate::text::decimal(baud),
        "--mode"@,
        "sender"@,
        "--rows-a"@,
        crate::text::decimal(rows_a),
        "--cols-a"@,
        crate::text::decimal(cols_a),
        "--cols-b"@,
        crate::text::decimal(cols_b),
        "--count"@,
        crate::text::decimal(count),
    ]
}

/// A sender is set up as its command line says, whatever the port, the rate, the shapes and the
/// number of requests.
pub proof fn lemma_sender_command(
    name: Seq<char>,
    port: Seq<char>,
    baud: nat,
    rows_a: nat,
    cols_a: nat,
    cols_b: nat,
    count: nat,
    config: Config,
)
    requires
        baud <= 0xFFFF_FFFF,
        rows_a <= 255,
        cols_a <= 255,
        cols_b <= 255,
        count <= 0xFFFF_FFFF,
    ensures
        ({
            let words = sender_command(name, port, baud, rows_a, cols_a, cols_b, count);
            let chosen = choices_from(words, 1, Choices::defaults());
            &&& chosen is Some
            &&& is_config(config, chosen->0) ==> {
                &&& config.port@ == port
                &&& config.baud == baud
                &&& config.mode == (RunMode::Sender {
                    rows_a: rows_a as u8,
                    cols_a: cols_a as u8,
                    cols_b: cols_b as u8,
                    count: count as u32,
                })
            }
        }),
{
    lemma_flag_letters();
    reveal_with_fuel(choices_from, 8);
    lemma_numbers_are_read(baud, 0xFFFF_FFFF, 115200);
    lemma_numbers_are_read(rows_a, 255, 2);
    lemma_numbers_are_read(cols_a, 255, 3);
    lemma_numbers_are_read(cols_b, 255, 2);
    lemma_numbers_are_read(count, 0xFFFF_FFFF, 1);
}

proof fn lemma_only_the_rest_counts_for_number(
    a: Seq<Seq<char>>,
    i: nat,
    b: Seq<Seq<char>>,
    j: nat,
    long: Seq<char>,
    short: Seq<char>,
    default: nat,
    now: nat,
)
    requires
        i <= a.len(),
        j <= b.len(),
        a.skip(i as int) == b.skip(j as int),
    ensures
        number_from(a, i, long, short, default, now) == number_from(
            b,
            j,
            long,
            short,
            default,
            now,
        ),
    decreases a.len() - i,
{
    assert(a.skip(i as int).len() == a.len() - i);
    assert(b.skip(j as int).len() == b.len() - j);
    if i + 1 < a.len() {
        assert(a[i as int] == a.skip(i as int)[0]);
        assert(b[j as int] == b.skip(j as int)[0]);
        assert(a[i as int + 1] == a.skip(i as int)[1]);
        assert(b[j as int + 1] == b.skip(j as int)[1]);
        assert(a.skip(i as int).skip(1) =~= a.skip(i as int + 1));
        assert(b.skip(j as int).skip(1) =~= b.skip(j as int + 1));
        assert(a.skip(i as int).skip(2) =~= a.skip(i as int + 2));
        assert(b.skip(j as int).skip(2) =~= b.skip(j as int + 2));
        let value = number_or(a[i as int + 1], u32::MAX as nat, default);
        lemma_only_the_rest_counts_for_number(a, i + 2, b, j + 2, long, short, default, value);
        lemma_only_the_rest_counts_for_number(a, i + 1, b, j + 1, long, short, default, now);
    }
}

/// A flag of a measuring program gives its number under either name, the last one counts, and
/// other words are passed over.
pub proof fn lemma_flag_number_is_taken(
    name: Seq<char>,
    word: Seq<char>,
    value: Seq<char>,
    rest: Seq<Seq<char>>,
    long: Seq<char>,
    short: Seq<char>,
    default: nat,
    now: nat,
)
    ensures
        number_from(seq![name], 1, long, short, default, now) == now,
        number_from(seq![name, word], 1, long, short, default, now) == now,
        word == long || word == short ==> number_from(
            seq![name, word, value] + rest,
            1,
            long,
            short,
            default,
            now,
        ) == number_from(
            seq![name] + rest,
            1,
            long,
            short,
            default,
            number_or(value, 0xFFFF_FFFF, default),
        ),
        word != long && word != short ==> number_from(
            seq![name, word] + rest,
            1,
            long,
            short,
            default,
            now,
        ) == number_from(seq![name] + rest, 1, long, short, default, now),
{
    let a = seq![name, word, value] + rest;
    let b = seq![name] + rest;
    assert(a[1] == word && a[2] == value);
    assert(a.skip(3) =~= rest);
    assert(b.skip(1) =~= rest);
    let n = number_or(value, 0xFFFF_FFFF, default);
    lemma_only_the_rest_counts_for_number(a, 3, b, 1, long, short, default, n);
    let d = seq![name, word] + rest;
    assert(d[1] == word);
    assert(d.skip(2) =~= rest);
    lemma_only_the_rest_counts_for_number(d, 2, b, 1, long, short, default, now);
}

/// The arguments are taken as they are, each at its place.
pub proof fn lemma_words_are_the_arguments(args: Seq<String>, i: int)
    requires
        0 <= i < args.len(),
    ensures
        words_of(args).len() == args.len(),
        words_of(args)[i] == args[i]@,
{
}

} // verus!
