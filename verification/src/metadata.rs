//! Metadata values and what they ask for.

use crate::limits::{
    DEFAULT_TIMEOUT_CLIENT, DEFAULT_TIMEOUT_CONNECT, DEFAULT_TIMEOUT_QUEUE, DEFAULT_TIMEOUT_SERVER,
    MAX_BACKENDS_HIGH, MAX_BACKENDS_LOW,
};
use crate::number;
use crate::text;
use vstd::prelude::*;

verus! {

/// `n`, or the end of the range from `low` to `high` that is nearest to it.
pub open spec fn clamped(n: nat, low: nat, high: nat) -> nat {
    if n < low {
        low
    } else if high < n {
        high
    } else {
        n
    }
}

/// The number of backend servers that `input` asks for.
pub open spec fn max_backends(input: Seq<char>) -> nat {
    match number::unsigned(text::trim(input), usize::MAX as nat) {
        Some(n) => clamped(n, MAX_BACKENDS_LOW as nat, MAX_BACKENDS_HIGH as nat),
        None => MAX_BACKENDS_LOW as nat,
    }
}

/// The number of backend servers that `input` asks for, from `MAX_BACKENDS_LOW` to
/// `MAX_BACKENDS_HIGH`; where it asks for none, the least.
pub fn parse_max_rs(input: &str) -> (n: usize)
    ensures
        n == max_backends(input@),
{
    match number::parse_unsigned(text::trimmed(input), usize::MAX as u64) {
        Some(n) => {
            if n < MAX_BACKENDS_LOW as u64 {
                MAX_BACKENDS_LOW
            } else if (MAX_BACKENDS_HIGH as u64) < n {
                MAX_BACKENDS_HIGH
            } else {
                n as usize
            }
        },
        None => MAX_BACKENDS_LOW,
    }
}

/// `input` says `true`, in small or capital letters.
pub open spec fn says_true(input: Seq<char>) -> bool {
    text::ascii_lowercase(text::trim(input)) == "true"@
}

/// Whether `input` says `true`, in small or capital letters.
pub fn is_loadbalancer_enabled(input: &str) -> (b: bool)
    ensures
        b == says_true(input@),
{
    proof {
        reveal_strlit("true");
        assert(text::ascii_lowercase("true"@) =~= "true"@);
    }
    text::same_text_ignoring_case(text::trimmed(input), "true")
}

/// The syslog endpoint that `input` names; none where it is blank.
pub open spec fn endpoint_for(input: Seq<char>) -> Option<Seq<char>> {
    if text::trim(input).len() == 0 {
        None
    } else {
        Some(text::trim(input))
    }
}

/// The syslog endpoint that `input` names; none where it is blank. HAProxy itself judges whether
/// it is one.
pub fn parse_syslog_endpoint(input: &str) -> (r: Option<String>)
    ensures
        match r {
            Some(endpoint) => endpoint_for(input@) == Some(endpoint@),
            None => endpoint_for(input@) is None,
        },
{
    let trimmed = text::trimmed(input);
    if trimmed.is_empty() {
        return None;
    }
    Some(trimmed.to_owned())
}

/// Timeouts, in milliseconds.
#[derive(Clone, Copy, Debug, PartialEq, Eq, Structural)]
pub struct TimeoutConfig {
    /// In the queue for a connection slot; 0 sets no limit.
    pub queue: u32,
    /// For a connection to a backend server.
    pub connect: u32,
    /// Of client inactivity.
    pub client: u32,
    /// For a server's response.
    pub server: u32,
}

/// The timeouts where nothing else is asked for.
pub open spec fn default_timeouts() -> TimeoutConfig {
    TimeoutConfig {
        queue: DEFAULT_TIMEOUT_QUEUE,
        connect: DEFAULT_TIMEOUT_CONNECT,
        client: DEFAULT_TIMEOUT_CLIENT,
        server: DEFAULT_TIMEOUT_SERVER,
    }
}

impl Default for TimeoutConfig {
    fn default() -> (t: TimeoutConfig)
        ensures
            t == default_timeouts(),
    {
        TimeoutConfig {
            queue: DEFAULT_TIMEOUT_QUEUE,
            connect: DEFAULT_TIMEOUT_CONNECT,
            client: DEFAULT_TIMEOUT_CLIENT,
            server: DEFAULT_TIMEOUT_SERVER,
        }
    }
}

/// `t` in braces, unless it starts with one.
pub open spec fn in_braces(t: Seq<char>) -> Seq<char> {
    if t.len() > 0 && t.first() == '{' {
        t
    } else {
        seq!['{'] + t + seq!['}']
    }
}

/// The JSON5 document that `input` stands for; none where it is blank.
pub open spec fn document_for(input: Seq<char>) -> Option<Seq<char>> {
    if text::trim(input).len() == 0 {
        None
    } else {
        Some(in_braces(text::trim(input)))
    }
}

/// The JSON5 document that `input` stands for; none where it is blank. Braces round the document
/// may be left out.
pub fn timeouts_document(input: &str) -> (r: Option<String>)
    ensures
        match r {
            Some(document) => document_for(input@) == Some(document@),
            None => document_for(input@) is None,
        },
{
    let trimmed = text::trimmed(input);
    if trimmed.is_empty() {
        return None;
    }
    if trimmed.get_char(0) == '{' {
        return Some(trimmed.to_owned());
    }
    let mut document = String::new();
    document.push('{');
    document.append(trimmed);
    document.push('}');
    assert(document@ =~= in_braces(trimmed@));
    Some(document)
}

/// The timeouts that a document sets.
#[derive(Clone, Copy, Debug, PartialEq, Eq, Structural)]
pub struct TimeoutOverrides {
    pub queue: Option<u32>,
    pub connect: Option<u32>,
    pub client: Option<u32>,
    pub server: Option<u32>,
}

/// `n` where it is set, and `default` where it is not.
pub open spec fn set_or(n: Option<u32>, default: u32) -> u32 {
    match n {
        Some(n) => n,
        None => default,
    }
}

/// The timeouts that `overrides` sets, and the defaults of the others.
pub open spec fn overridden(overrides: TimeoutOverrides) -> TimeoutConfig {
    TimeoutConfig {
        queue: set_or(overrides.queue, DEFAULT_TIMEOUT_QUEUE),
        connect: set_or(overrides.connect, DEFAULT_TIMEOUT_CONNECT),
        client: set_or(overrides.client, DEFAULT_TIMEOUT_CLIENT),
        server: set_or(overrides.server, DEFAULT_TIMEOUT_SERVER),
    }
}

/// The timeouts that `input` asks for, where `document` is what its document sets.
pub open spec fn timeouts_for(
    input: Seq<char>,
    document: Option<TimeoutOverrides>,
) -> TimeoutConfig {
    match document {
        Some(overrides) if text::trim(input).len() > 0 => overridden(overrides),
        _ => default_timeouts(),
    }
}

/// The timeouts that `input` asks for, where `document` is what its JSON5 document sets, or
/// nothing if that could not be read. A blank input, and one that could not be read, asks for the
/// defaults.
pub fn parse_timeouts(input: &str, document: Option<TimeoutOverrides>) -> (t: TimeoutConfig)
    ensures
        t == timeouts_for(input@, document),
{
    if text::trimmed(input).is_empty() {
        return TimeoutConfig::default();
    }
    match document {
        Some(overrides) => TimeoutConfig {
            queue: overrides.queue.unwrap_or(DEFAULT_TIMEOUT_QUEUE),
            connect: overrides.connect.unwrap_or(DEFAULT_TIMEOUT_CONNECT),
            client: overrides.client.unwrap_or(DEFAULT_TIMEOUT_CLIENT),
            server: overrides.server.unwrap_or(DEFAULT_TIMEOUT_SERVER),
        },
        None => TimeoutConfig::default(),
    }
}

/// What stands for a text whose bytes are not all UTF-8.
pub uninterp spec fn repaired_utf8(bytes: Seq<u8>) -> Seq<char>;

/// The text that `bytes` hold, with replacement characters for what is not UTF-8.
pub open spec fn lossy_text(bytes: Seq<u8>) -> Seq<char> {
    if vstd::utf8::valid_utf8(bytes) {
        vstd::utf8::decode_utf8(bytes)
    } else {
        repaired_utf8(bytes)
    }
}

/// `String::from_utf8_lossy`, which reads bytes that are UTF-8 as they are. What it makes of other
/// bytes, where replacement characters stand, is left to a name.
#[verifier::external_body]
pub(crate) fn from_utf8_lossy(bytes: &[u8]) -> (r: String)
    ensures
        vstd::utf8::valid_utf8(bytes@) ==> r@ == vstd::utf8::decode_utf8(bytes@),
        !vstd::utf8::valid_utf8(bytes@) ==> r@ == repaired_utf8(bytes@),
{
    String::from_utf8_lossy(bytes).into_owned()
}

/// How the program that reads metadata ended.
pub enum MetadataReply {
    /// It could not be run.
    NotRun,
    /// It ran, found the key or not, and wrote `stdout`.
    Ended { success: bool, stdout: Vec<u8> },
}

/// The metadata value that `reply` gives.
pub open spec fn value_of(reply: MetadataReply) -> Seq<char> {
    match reply {
        MetadataReply::Ended { success: true, stdout } => text::trim(lossy_text(stdout@)),
        _ => Seq::empty(),
    }
}

/// The metadata value that `reply` gives: what was written, without white space round it; empty
/// where the key was not found or could not be asked for.
pub fn metadata_value(reply: &MetadataReply) -> (value: String)
    ensures
        value@ == value_of(*reply),
{
    match reply {
        MetadataReply::Ended { success, stdout } => {
            if *success {
                let written = from_utf8_lossy(stdout.as_slice());
                text::trimmed(written.as_str()).to_owned()
            } else {
                String::new()
            }
        },
        MetadataReply::NotRun => String::new(),
    }
}

/// The number of backend servers is always one that is allowed.
pub proof fn max_backends_is_in_range(input: Seq<char>)
    ensures
        MAX_BACKENDS_LOW <= max_backends(input) <= MAX_BACKENDS_HIGH,
{
}

/// A number that is asked for is granted where it is allowed, and else the nearest that is; one
/// that is too large to be read counts as none.
pub proof fn max_backends_of_a_number(n: nat)
    ensures
        max_backends(number::decimal(n)) == (if n <= usize::MAX {
            clamped(n, MAX_BACKENDS_LOW as nat, MAX_BACKENDS_HIGH as nat)
        } else {
            MAX_BACKENDS_LOW as nat
        }),
{
    number::lemma_decimal(n);
    let digits = number::decimal(n);
    assert(number::is_digit(digits[0]) && number::is_digit(digits[digits.len() - 1]));
    text::trim_leaves_trimmed(digits);
    if n <= usize::MAX {
        number::decimal_reads_back(n, usize::MAX as nat);
    } else {
        number::decimal_above_limit(n, usize::MAX as nat);
    }
}

/// White space round a value does not matter, whichever value it is.
pub proof fn padding_does_not_matter(before: Seq<char>, input: Seq<char>, behind: Seq<char>)
    requires
        forall|i: int| 0 <= i < before.len() ==> text::is_white_space(#[trigger] before[i]),
        forall|i: int| 0 <= i < behind.len() ==> text::is_white_space(#[trigger] behind[i]),
    ensures
        max_backends(before + input + behind) == max_backends(input),
        says_true(before + input + behind) == says_true(input),
        text::trim(before + input + behind) == text::trim(input),
{
    text::trim_ignores_padding(before, input, behind);
}

/// The load balancer is enabled by `true`, in whatever mixture of small and capital letters.
pub proof fn case_does_not_matter(a: Seq<char>, b: Seq<char>)
    requires
        text::ascii_lowercase(a) == text::ascii_lowercase(b),
        text::is_trimmed(a),
        text::is_trimmed(b),
    ensures
        says_true(a) == says_true(b),
{
    text::trim_leaves_trimmed(a);
    text::trim_leaves_trimmed(b);
}

/// Braces round a timeouts document may be left out: with them it is the same document.
pub proof fn braces_may_be_left_out(t: Seq<char>)
    requires
        t.len() > 0,
        text::is_trimmed(t),
    ensures
        in_braces(t).first() == '{',
        text::trim(in_braces(t)) == in_braces(t),
        in_braces(text::trim(in_braces(t))) == in_braces(text::trim(t)),
{
    text::trim_leaves_trimmed(t);
    text::trim_leaves_trimmed(in_braces(t));
}

/// A timeout that a document does not set keeps its default, and one that it sets does not depend
/// on the others.
pub proof fn timeouts_are_set_one_by_one(a: TimeoutOverrides, b: TimeoutOverrides)
    ensures
        a.queue is None ==> overridden(a).queue == default_timeouts().queue,
        a.connect is None ==> overridden(a).connect == default_timeouts().connect,
        a.client is None ==> overridden(a).client == default_timeouts().client,
        a.server is None ==> overridden(a).server == default_timeouts().server,
        a.queue == b.queue ==> overridden(a).queue == overridden(b).queue,
        a.connect == b.connect ==> overridden(a).connect == overridden(b).connect,
        a.client == b.client ==> overridden(a).client == overridden(b).client,
        a.server == b.server ==> overridden(a).server == overridden(b).server,
{
}

} // verus!
