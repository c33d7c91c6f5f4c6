//! The operator console's grammar.
use crate::codec::{append_bytes, copy_bytes, same_bytes};
use crate::fuzz::{Direction, FuzzRule};
use vstd::prelude::*;
use vstd::string::StringSliceAdditionalSpecFns;

verus! {

/// Space, tab, line feed, form feed or carriage return.
pub open spec fn is_space(c: u8) -> bool {
    c == 0x20 || c == 0x09 || c == 0x0a || c == 0x0c || c == 0x0d
}

/// Length of the word that starts `s`.
pub open spec fn word_len(s: Seq<u8>) -> nat
    decreases s.len(),
{
    if s.len() == 0 || is_space(s[0]) {
        0
    } else {
        1 + word_len(s.drop_first())
    }
}

/// The words of `s`, separated by runs of ASCII white space.
pub open spec fn words(s: Seq<u8>) -> Seq<Seq<u8>>
    decreases s.len(),
    via words_decreases
{
    if s.len() == 0 {
        Seq::empty()
    } else if is_space(s[0]) {
        words(s.drop_first())
    } else {
        let k = word_len(s);
        seq![s.subrange(0, k as int)] + words(s.subrange(k as int, s.len() as int))
    }
}

#[via_fn]
proof fn words_decreases(s: Seq<u8>) {
    if s.len() != 0 && !is_space(s[0]) {
        lemma_word_len(s);
    }
}

proof fn lemma_word_len(s: Seq<u8>)
    ensures
        word_len(s) <= s.len(),
        forall|j: int| 0 <= j < word_len(s) ==> !is_space(#[trigger] s[j]),
        word_len(s) < s.len() ==> is_space(s[word_len(s) as int]),
    decreases s.len(),
{
    if s.len() > 0 && !is_space(s[0]) {
        lemma_word_len(s.drop_first());
        assert forall|j: int| 0 <= j < word_len(s) implies !is_space(#[trigger] s[j]) by {
            if j > 0 {
                assert(s[j] == s.drop_first()[j - 1]);
            }
        }
    }
}

proof fn lemma_word_len_of_run(s: Seq<u8>, k: nat)
    requires
        k <= s.len(),
        forall|j: int| 0 <= j < k ==> !is_space(#[trigger] s[j]),
        k < s.len() ==> is_space(s[k as int]),
    ensures
        word_len(s) == k,
    decreases k,
{
    if k > 0 {
        assert forall|j: int| 0 <= j < k - 1 implies !is_space(#[trigger] s.drop_first()[j]) by {
            assert(s.drop_first()[j] == s[j + 1]);
        }
        lemma_word_len_of_run(s.drop_first(), (k - 1) as nat);
    }
}

/// Splits `s` into its words.
pub fn split_words(s: &[u8]) -> (r: Vec<Vec<u8>>)
    ensures
        r@.len() == words(s@).len(),
        forall|k: int| 0 <= k < r@.len() ==> #[trigger] r@[k]@ == words(s@)[k],
        total_len(words(s@)) <= usize::MAX,
{
    let len = s.len();
    proof {
        lemma_words_total_len(s@);
    }
    let mut out: Vec<Vec<u8>> = Vec::new();
    let mut i: usize = 0;
    assert(s@.subrange(0, len as int) =~= s@);
    while i < len
        invariant
            i <= len,
            len == s@.len(),
            words(s@) == out@.map_values(|w: Vec<u8>| w@) + words(s@.subrange(i as int, len as int)),
        decreases len - i,
    {
        let ghost rest = s@.subrange(i as int, len as int);
        if s[i] == 0x20 || s[i] == 0x09 || s[i] == 0x0a || s[i] == 0x0c || s[i] == 0x0d {
            assert(rest.drop_first() =~= s@.subrange(i + 1, len as int));
            i += 1;
        } else {
            let mut j: usize = i;
            while j < len && !(s[j] == 0x20 || s[j] == 0x09 || s[j] == 0x0a || s[j] == 0x0c
                || s[j] == 0x0d)
                invariant
                    i <= j <= len,
                    len == s@.len(),
                    forall|m: int| i <= m < j ==> !is_space(#[trigger] s@[m]),
                decreases len - j,
            {
                j += 1;
            }
            proof {
                assert forall|m: int| 0 <= m < j - i implies !is_space(#[trigger] rest[m]) by {
                    assert(rest[m] == s@[i + m]);
                }
                if j < len {
                    assert(rest[j - i] == s@[j as int]);
                }
                lemma_word_len_of_run(rest, (j - i) as nat);
            }
            let w = copy_bytes(&s[i..j]);
            let ghost before = out@;
            out.push(w);
            assert(rest.subrange(0, j - i) =~= w@);
            assert(rest.subrange(j - i, rest.len() as int) =~= s@.subrange(j as int, len as int));
            assert(out@.map_values(|w: Vec<u8>| w@) =~= before.map_values(|w: Vec<u8>| w@) + seq![w@]);
            i = j;
        }
    }
    assert(words(s@.subrange(i as int, len as int)) == Seq::<Seq<u8>>::empty());
    assert(out@.map_values(|w: Vec<u8>| w@) + Seq::<Seq<u8>>::empty() =~= out@.map_values(|w: Vec<u8>| w@));
    out
}

/// Whether `c` is an ASCII decimal digit.
pub open spec fn is_digit(c: u8) -> bool {
    0x30 <= c <= 0x39
}

/// The number written by the decimal digits `d`.
pub open spec fn digits_value(d: Seq<u8>) -> nat
    decreases d.len(),
{
    if d.len() == 0 {
        0
    } else {
        digits_value(d.drop_last()) * 10 + (d.last() - 0x30) as nat
    }
}

/// `s` without a leading `+`.
pub open spec fn unsigned_part(s: Seq<u8>) -> Seq<u8> {
    if s.len() > 0 && s[0] == 0x2b {
        s.drop_first()
    } else {
        s
    }
}

/// The number written by `s`: an optional `+` and at least one decimal digit.
pub open spec fn decimal_value(s: Seq<u8>) -> Option<nat> {
    let d = unsigned_part(s);
    if d.len() > 0 && forall|i: int| 0 <= i < d.len() ==> is_digit(#[trigger] d[i]) {
        Some(digits_value(d))
    } else {
        None
    }
}

/// The number written by `s` if it is at most `limit`.
pub open spec fn bounded_value(s: Seq<u8>, limit: nat) -> Option<nat> {
    match decimal_value(s) {
        Some(v) => if v <= limit {
            Some(v)
        } else {
            None
        },
        None => None,
    }
}

/// Reads the decimal number written by `w`, if it is at most `limit`.
pub fn parse_number(w: &[u8], limit: u64) -> (r: Option<u64>)
    ensures
        match bounded_value(w@, limit as nat) {
            Some(v) => r == Some(v as u64),
            None => r is None,
        },
{
    let len = w.len();
    let start: usize = if len > 0 && w[0] == 0x2b {
        1
    } else {
        0
    };
    let ghost d = unsigned_part(w@);
    assert(d =~= w@.subrange(start as int, len as int));
    if start == len {
        return None;
    }
    let mut acc: u64 = 0;
    let mut over = false;
    let mut i: usize = start;
    assert(d.subrange(0, 0) =~= Seq::<u8>::empty());
    while i < len
        invariant
            start <= i <= len,
            len == w@.len(),
            d == w@.subrange(start as int, len as int),
            d == unsigned_part(w@),
            forall|j: int| 0 <= j < i - start ==> is_digit(#[trigger] d[j]),
            !over ==> acc as nat == digits_value(d.subrange(0, i - start)) && acc <= limit,
            over ==> digits_value(d.subrange(0, i - start)) > limit,
        decreases len - i,
    {
        let c = w[i];
        if c < 0x30 || c > 0x39 {
            assert(!is_digit(d[i - start]));
            assert(!(forall|j: int| 0 <= j < d.len() ==> is_digit(#[trigger] d[j])));
            assert(decimal_value(w@) is None);
            return None;
        }
        let ghost prefix = d.subrange(0, i - start);
        assert(d.subrange(0, i + 1 - start).drop_last() =~= prefix);
        if !over {
            let next: u128 = acc as u128 * 10 + (c - 0x30) as u128;
            if next > limit as u128 {
                over = true;
            } else {
                acc = next as u64;
            }
        }
        i += 1;
    }
    assert(d.subrange(0, len - start) =~= d);
    if over {
        None
    } else {
        Some(acc)
    }
}

/// The value of hexadecimal digit `c`, in either case.
pub open spec fn hex_digit(c: u8) -> Option<u8> {
    if 0x30 <= c <= 0x39 {
        Some((c - 0x30) as u8)
    } else if 0x61 <= c <= 0x66 {
        Some((c - 0x61 + 10) as u8)
    } else if 0x41 <= c <= 0x46 {
        Some((c - 0x41 + 10) as u8)
    } else {
        None
    }
}

/// Whether `s` is an even number of hexadecimal digits.
pub open spec fn is_hex(s: Seq<u8>) -> bool {
    s.len() % 2 == 0 && forall|i: int| 0 <= i < s.len() ==> (#[trigger] hex_digit(s[i])) is Some
}

/// The bytes written by the hexadecimal digits `s`, two digits each.
pub open spec fn hex_bytes(s: Seq<u8>) -> Seq<u8> {
    Seq::new(
        s.len() / 2,
        |i: int| (hex_digit(s[2 * i])->0 * 16 + hex_digit(s[2 * i + 1])->0) as u8,
    )
}

/// Relies on `hex::decode`: an even number of hexadecimal digits, in either
/// case, gives their bytes; anything else is refused.
#[verifier::external_body]
fn hex_decode(s: &[u8]) -> (r: Option<Vec<u8>>)
    ensures
        r is Some <==> is_hex(s@),
        r is Some ==> r->0@ == hex_bytes(s@),
{
    hex::decode(s).ok()
}

/// The bytes written by the hexadecimal words `ws`, one after the other.
pub open spec fn hex_concat(ws: Seq<Seq<u8>>) -> Option<Seq<u8>>
    decreases ws.len(),
{
    if ws.len() == 0 {
        Some(Seq::empty())
    } else if !is_hex(ws[0]) {
        None
    } else {
        match hex_concat(ws.drop_first()) {
            Some(rest) => Some(hex_bytes(ws[0]) + rest),
            None => None,
        }
    }
}

/// The words of the console grammar.
#[derive(Debug, Clone, Copy, PartialEq, Eq, Structural)]
pub enum Keyword {
    Log,
    On,
    Off,
    State,
    Client,
    Server,
    Fuzz,
    Both,
    Exit,
}

/// The ASCII spelling of a keyword.
pub open spec fn keyword(k: Keyword) -> Seq<u8> {
    match k {
        Keyword::Log => seq![0x6cu8, 0x6f, 0x67],
        Keyword::On => seq![0x6fu8, 0x6e],
        Keyword::Off => seq![0x6fu8, 0x66, 0x66],
        Keyword::State => seq![0x73u8, 0x74, 0x61, 0x74, 0x65],
        Keyword::Client => seq![0x63u8, 0x6c, 0x69, 0x65, 0x6e, 0x74],
        Keyword::Server => seq![0x73u8, 0x65, 0x72, 0x76, 0x65, 0x72],
        Keyword::Fuzz => seq![0x66u8, 0x75, 0x7a, 0x7a],
        Keyword::Both => seq![0x62u8, 0x6f, 0x74, 0x68],
        Keyword::Exit => seq![0x65u8, 0x78, 0x69, 0x74],
    }
}

fn keyword_bytes(k: Keyword) -> (r: Vec<u8>)
    ensures
        r@ == keyword(k),
{
    let r: Vec<u8> = match k {
        Keyword::Log => vec![0x6cu8, 0x6f, 0x67],
        Keyword::On => vec![0x6fu8, 0x6e],
        Keyword::Off => vec![0x6fu8, 0x66, 0x66],
        Keyword::State => vec![0x73u8, 0x74, 0x61, 0x74, 0x65],
        Keyword::Client => vec![0x63u8, 0x6c, 0x69, 0x65, 0x6e, 0x74],
        Keyword::Server => vec![0x73u8, 0x65, 0x72, 0x76, 0x65, 0x72],
        Keyword::Fuzz => vec![0x66u8, 0x75, 0x7a, 0x7a],
        Keyword::Both => vec![0x62u8, 0x6f, 0x74, 0x68],
        Keyword::Exit => vec![0x65u8, 0x78, 0x69, 0x74],
    };
    assert(r@ =~= keyword(k));
    r
}

/// Whether word `w` is keyword `k`.
fn is_keyword(w: &Vec<u8>, k: Keyword) -> (r: bool)
    ensures
        r == (w@ == keyword(k)),
{
    same_bytes(w, &keyword_bytes(k))
}

/// The endpoint that an injected packet is sent to.
#[derive(Debug, Clone, Copy, PartialEq, Eq, Structural)]
pub enum Endpoint {
    Client,
    Server,
}

/// A console command.
#[derive(Debug)]
pub enum Command {
    /// A blank line.
    Nothing,
    /// Turn the printing of relayed packets on or off.
    Log(bool),
    /// Show the byte values seen at an offset.
    Inspect(usize),
    /// Send a packet to an endpoint.
    Inject { toward: Endpoint, data: Vec<u8> },
    /// Set the fuzz rule.
    Fuzz(FuzzRule),
    /// Clear the fuzz rule.
    NoFuzz,
    /// End the session.
    Exit,
}

/// What a command means, with its packet as a sequence.
pub enum CommandSpec {
    Nothing,
    Log(bool),
    Inspect(usize),
    Inject { toward: Endpoint, data: Seq<u8> },
    Fuzz(FuzzRule),
    NoFuzz,
    Exit,
}

impl View for Command {
    type V = CommandSpec;

    open spec fn view(&self) -> CommandSpec {
        match self {
            Command::Nothing => CommandSpec::Nothing,
            Command::Log(b) => CommandSpec::Log(*b),
            Command::Inspect(p) => CommandSpec::Inspect(*p),
            Command::Inject { toward, data } => CommandSpec::Inject { toward: *toward, data: data@ },
            Command::Fuzz(f) => CommandSpec::Fuzz(*f),
            Command::NoFuzz => CommandSpec::NoFuzz,
            Command::Exit => CommandSpec::Exit,
        }
    }
}

/// Why a console line was refused.
#[derive(Debug, Clone, Copy, PartialEq, Eq, Structural)]
pub enum CommandError {
    /// No command has this shape.
    Unknown,
    /// A number is malformed or out of range.
    BadNumber,
    /// A packet argument is not an even number of hexadecimal digits.
    BadHex,
    /// The fuzz range starts after it ends.
    FuzzRange,
    /// The fuzz probability has a zero denominator or exceeds one.
    BadRatio,
}

/// The fuzz direction named by word `w`.
pub open spec fn direction_word(w: Seq<u8>) -> Option<Direction> {
    if w == keyword(Keyword::Client) {
        Some(Direction::Client)
    } else if w == keyword(Keyword::Server) {
        Some(Direction::Server)
    } else if w == keyword(Keyword::Both) {
        Some(Direction::Both)
    } else {
        None
    }
}

/// The fuzz rule written by the words after `fuzz <direction>`.
pub open spec fn fuzz_spec(d: Direction, t: Seq<Seq<u8>>) -> Result<CommandSpec, CommandError> {
    let start = bounded_value(t[2], usize::MAX as nat);
    let end = bounded_value(t[3], usize::MAX as nat);
    let num = bounded_value(t[4], u32::MAX as nat);
    let den = bounded_value(t[5], u32::MAX as nat);
    if start is None || end is None {
        Err(CommandError::BadNumber)
    } else if start->0 > end->0 {
        Err(CommandError::FuzzRange)
    } else if num is None || den is None {
        Err(CommandError::BadNumber)
    } else if den->0 == 0 || num->0 > den->0 {
        Err(CommandError::BadRatio)
    } else {
        Ok(
            CommandSpec::Fuzz(
                FuzzRule {
                    direction: d,
                    start: start->0 as usize,
                    end: end->0 as usize,
                    numerator: num->0 as u32,
                    denominator: den->0 as u32,
                },
            ),
        )
    }
}

/// The command written by the words `t`.
pub open spec fn command_spec(t: Seq<Seq<u8>>) -> Result<CommandSpec, CommandError> {
    if t.len() == 0 {
        Ok(CommandSpec::Nothing)
    } else if t.len() == 2 && t[0] == keyword(Keyword::Log) && t[1] == keyword(Keyword::Off) {
        Ok(CommandSpec::Log(false))
    } else if t.len() == 2 && t[0] == keyword(Keyword::Log) && t[1] == keyword(Keyword::On) {
        Ok(CommandSpec::Log(true))
    } else if t.len() == 2 && t[0] == keyword(Keyword::State) {
        match bounded_value(t[1], usize::MAX as nat) {
            Some(p) => Ok(CommandSpec::Inspect(p as usize)),
            None => Err(CommandError::BadNumber),
        }
    } else if t[0] == keyword(Keyword::Client) || t[0] == keyword(Keyword::Server) {
        match hex_concat(t.drop_first()) {
            Some(data) => Ok(
                CommandSpec::Inject {
                    toward: if t[0] == keyword(Keyword::Client) {
                        Endpoint::Client
                    } else {
                        Endpoint::Server
                    },
                    data,
                },
            ),
            None => Err(CommandError::BadHex),
        }
    } else if t.len() == 6 && t[0] == keyword(Keyword::Fuzz) && direction_word(t[1]) is Some {
        fuzz_spec(direction_word(t[1])->0, t)
    } else if t.len() == 2 && t[0] == keyword(Keyword::Fuzz) && t[1] == keyword(Keyword::Off) {
        Ok(CommandSpec::NoFuzz)
    } else if t.len() == 1 && t[0] == keyword(Keyword::Exit) {
        Ok(CommandSpec::Exit)
    } else {
        Err(CommandError::Unknown)
    }
}

/// Whether `r` is what `command_spec` gives.
pub open spec fn parsed_as(r: Result<Command, CommandError>, c: Result<CommandSpec, CommandError>) -> bool {
    match c {
        Ok(spec) => r is Ok && r->Ok_0@ == spec,
        Err(e) => r is Err && r->Err_0 == e,
    }
}

/// Total length of the words `ws`.
pub open spec fn total_len(ws: Seq<Seq<u8>>) -> nat
    decreases ws.len(),
{
    if ws.len() == 0 {
        0
    } else {
        ws[0].len() + total_len(ws.drop_first())
    }
}

proof fn lemma_words_total_len(s: Seq<u8>)
    ensures
        total_len(words(s)) <= s.len(),
    decreases s.len(),
{
    if s.len() == 0 {
    } else if is_space(s[0]) {
        lemma_words_total_len(s.drop_first());
    } else {
        lemma_word_len(s);
        let k = word_len(s);
        let rest = s.subrange(k as int, s.len() as int);
        lemma_words_total_len(rest);
        let ws = words(s);
        assert(ws.drop_first() =~= words(rest));
    }
}

/// The fuzz direction named by word `w`.
fn direction_of(w: &Vec<u8>) -> (r: Option<Direction>)
    ensures
        r == direction_word(w@),
{
    if is_keyword(w, Keyword::Client) {
        Some(Direction::Client)
    } else if is_keyword(w, Keyword::Server) {
        Some(Direction::Server)
    } else if is_keyword(w, Keyword::Both) {
        Some(Direction::Both)
    } else {
        None
    }
}

/// Reads the words after `fuzz <direction>`.
fn parse_fuzz(d: Direction, t: &Vec<Vec<u8>>) -> (r: Result<Command, CommandError>)
    requires
        t@.len() == 6,
    ensures
        parsed_as(r, fuzz_spec(d, t@.map_values(|w: Vec<u8>| w@))),
{
    let ghost tv = t@.map_values(|w: Vec<u8>| w@);
    assert(tv[2] == t@[2]@ && tv[3] == t@[3]@ && tv[4] == t@[4]@ && tv[5] == t@[5]@);
    let start = parse_number(&t[2], usize::MAX as u64);
    let end = parse_number(&t[3], usize::MAX as u64);
    let (start, end) = match (start, end) {
        (Some(s), Some(e)) => (s as usize, e as usize),
        _ => {
            return Err(CommandError::BadNumber);
        },
    };
    if start > end {
        return Err(CommandError::FuzzRange);
    }
    let num = parse_number(&t[4], u32::MAX as u64);
    let den = parse_number(&t[5], u32::MAX as u64);
    let (num, den) = match (num, den) {
        (Some(n), Some(m)) => (n as u32, m as u32),
        _ => {
            return Err(CommandError::BadNumber);
        },
    };
    if den == 0 || num > den {
        return Err(CommandError::BadRatio);
    }
    Ok(Command::Fuzz(FuzzRule { direction: d, start, end, numerator: num, denominator: den }))
}

/// Reads the packet written by the hexadecimal words after the first.
fn parse_inject(toward: Endpoint, t: &Vec<Vec<u8>>) -> (r: Result<Command, CommandError>)
    requires
        t@.len() >= 1,
        total_len(t@.map_values(|w: Vec<u8>| w@)) <= usize::MAX,
    ensures
        match hex_concat(t@.map_values(|w: Vec<u8>| w@).drop_first()) {
            Some(data) => r is Ok && r->Ok_0@ == (CommandSpec::Inject { toward, data }),
            None => r is Err && r->Err_0 == CommandError::BadHex,
        },
{
    let ghost tv = t@.map_values(|w: Vec<u8>| w@);
    let n = t.len();
    let mut data: Vec<u8> = Vec::new();
    let mut k: usize = 1;
    assert(tv.subrange(1, n as int) =~= tv.drop_first());
    assert(total_len(tv) == tv[0].len() + total_len(tv.drop_first()));
    while k < n
        invariant
            1 <= k <= n,
            n == tv.len(),
            tv == t@.map_values(|w: Vec<u8>| w@),
            total_len(tv.drop_first()) <= usize::MAX,
            data@.len() + total_len(tv.subrange(k as int, n as int)) <= total_len(tv.drop_first()),
            hex_concat(tv.drop_first()) == match hex_concat(tv.subrange(k as int, n as int)) {
                Some(rest) => Some(data@ + rest),
                None => None::<Seq<u8>>,
            },
        decreases n - k,
    {
        let ghost rest = tv.subrange(k as int, n as int);
        assert(rest.drop_first() =~= tv.subrange(k + 1, n as int));
        assert(rest[0] == t@[k as int]@);
        match hex_decode(&t[k]) {
            Some(b) => {
                let ghost before = data@;
                append_bytes(&mut data, &b);
                proof {
                    match hex_concat(tv.subrange(k + 1, n as int)) {
                        Some(tail) => {
                            assert(before + (hex_bytes(rest[0]) + tail) =~= data@ + tail);
                        },
                        None => {},
                    }
                }
            },
            None => {
                return Err(CommandError::BadHex);
            },
        }
        k += 1;
    }
    assert(tv.subrange(n as int, n as int) =~= Seq::<Seq<u8>>::empty());
    assert(data@ + Seq::<u8>::empty() =~= data@);
    Ok(Command::Inject { toward, data })
}

/// Reads one console line.
pub fn parse_command(line: &str) -> (r: Result<Command, CommandError>)
    ensures
        parsed_as(r, command_spec(words(line.spec_bytes()))),
{
    let bytes = line.as_bytes();
    let t = split_words(bytes);
    let ghost tv = t@.map_values(|w: Vec<u8>| w@);
    assert(tv =~= words(bytes@));
    let n = t.len();
    if n == 0 {
        return Ok(Command::Nothing);
    }
    assert(tv[0] == t@[0]@);
    if n == 2 {
        assert(tv[1] == t@[1]@);
    }
    if n == 2 && is_keyword(&t[0], Keyword::Log) && is_keyword(&t[1], Keyword::Off) {
        return Ok(Command::Log(false));
    }
    if n == 2 && is_keyword(&t[0], Keyword::Log) && is_keyword(&t[1], Keyword::On) {
        return Ok(Command::Log(true));
    }
    if n == 2 && is_keyword(&t[0], Keyword::State) {
        return match parse_number(&t[1], usize::MAX as u64) {
            Some(p) => Ok(Command::Inspect(p as usize)),
            None => Err(CommandError::BadNumber),
        };
    }
    if is_keyword(&t[0], Keyword::Client) {
        return parse_inject(Endpoint::Client, &t);
    }
    if is_keyword(&t[0], Keyword::Server) {
        return parse_inject(Endpoint::Server, &t);
    }
    if n == 6 && is_keyword(&t[0], Keyword::Fuzz) {
        assert(tv[1] == t@[1]@);
        match direction_of(&t[1]) {
            Some(d) => {
                return parse_fuzz(d, &t);
            },
            None => {},
        }
    }
    if n == 2 && is_keyword(&t[0], Keyword::Fuzz) && is_keyword(&t[1], Keyword::Off) {
        return Ok(Command::NoFuzz);
    }
    if n == 1 && is_keyword(&t[0], Keyword::Exit) {
        return Ok(Command::Exit);
    }
    Err(CommandError::Unknown)
}

} // verus!
