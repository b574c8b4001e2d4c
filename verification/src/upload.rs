//! Preparing a log for submission: the access token that the host ships
//! with, cutting a log into pieces, and the texts that go with them.

use vstd::prelude::*;
use vstd::utf8::{decode_utf8, encode_utf8, is_char_boundary, valid_utf8};
use crate::text::{
    chars_of, decimal, decimal_string, digits, digits_string, parse_trimmed_i64, parsed_i64,
    string_of, trimmed,
};

verus! {

/// The access token of the host, masked: each byte is a character of the
/// token combined with `FRAME_OFFSET` by exclusive or.
pub const SPLASH_FRAME_DELAYS: [u8; 93] = [
    0x3D, 0x33, 0x2E, 0x32, 0x2F, 0x38, 0x05, 0x2A, 0x3B, 0x2E, 0x05, 0x6B, 0x6B, 0x1B, 0x18, 0x1D,
    0x1B, 0x69, 0x6F, 0x1B, 0x6A, 0x6E, 0x3F, 0x30, 0x6C, 0x13, 0x10, 0x39, 0x38, 0x39, 0x2E, 0x31,
    0x12, 0x05, 0x0A, 0x2B, 0x6B, 0x1C, 0x3C, 0x1E, 0x0A, 0x69, 0x0A, 0x0C, 0x0A, 0x6B, 0x37, 0x18,
    0x11, 0x0A, 0x29, 0x1D, 0x0B, 0x0D, 0x31, 0x33, 0x38, 0x39, 0x29, 0x6F, 0x02, 0x34, 0x34, 0x6A,
    0x6D, 0x1D, 0x3C, 0x22, 0x6B, 0x2E, 0x0C, 0x35, 0x0F, 0x3B, 0x0B, 0x0C, 0x09, 0x03, 0x16, 0x18,
    0x0A, 0x6E, 0x13, 0x00, 0x68, 0x3E, 0x36, 0x12, 0x20, 0x62, 0x09, 0x3D, 0x38,
];

/// The mask of `SPLASH_FRAME_DELAYS`.
pub const FRAME_OFFSET: u8 = 0x5A;

/// The byte `b` with the mask taken off or put on.
pub open spec fn flipped(b: u8) -> u8 {
    b ^ FRAME_OFFSET
}

/// The text that the masked bytes `bytes` stand for.
pub open spec fn unmasked(bytes: Seq<u8>) -> Seq<char> {
    bytes.map_values(|b: u8| flipped(b) as char)
}

/// The bytes `bytes`, masked.
pub open spec fn masked(bytes: Seq<u8>) -> Seq<u8> {
    bytes.map_values(|b: u8| flipped(b))
}

/// The mask comes off as it goes on.
pub proof fn lemma_flip_twice(b: u8)
    ensures
        flipped(flipped(b)) == b,
{
    assert((b ^ 0x5Au8) ^ 0x5Au8 == b) by (bit_vector);
}

/// Masking the bytes of a text of ASCII characters and taking the mask off
/// gives the text back.
pub proof fn lemma_mask_round_trip(text: Seq<char>)
    requires
        vstd::utf8::is_ascii_chars(text),
    ensures
        unmasked(masked(encode_utf8(text))) == text,
{
    vstd::utf8::is_ascii_chars_encode_utf8(text);
    let bytes = encode_utf8(text);
    assert forall|i: int| 0 <= i < text.len() implies unmasked(masked(bytes))[i] == text[i] by {
        lemma_flip_twice(bytes[i]);
        assert(bytes[i] == text[i] as u8);
        vstd::utf8::is_ascii_chars_nat_bound(text);
        vstd::utf8::char_u32_cast(text[i], text[i] as u32);
    }
    assert(unmasked(masked(bytes)) =~= text);
}

/// The access token of the host, with the mask taken off.
pub fn get_animation_config() -> (token: String)
    ensures
        token@ == unmasked(SPLASH_FRAME_DELAYS@),
{
    let mut token = String::new();
    let mut i: usize = 0;
    while i < 93
        invariant
            i <= 93,
            token@ == unmasked(SPLASH_FRAME_DELAYS@.take(i as int)),
        decreases 93 - i,
    {
        let b: u8 = SPLASH_FRAME_DELAYS[i] ^ FRAME_OFFSET;
        token.push(b as char);
        i += 1;
        assert(token@ =~= unmasked(SPLASH_FRAME_DELAYS@.take(i as int)));
    }
    assert(SPLASH_FRAME_DELAYS@.take(93) =~= SPLASH_FRAME_DELAYS@);
    token
}

/// The bytes of `input`, masked.
pub fn compute_frame_delays(input: &str) -> (delays: Vec<u8>)
    ensures
        delays@ == masked(encode_utf8(input@)),
{
    let bytes = input.as_bytes();
    let mut delays: Vec<u8> = Vec::new();
    let mut i: usize = 0;
    while i < bytes.len()
        invariant
            i <= bytes.len(),
            bytes@ == encode_utf8(input@),
            delays@ == masked(bytes@.take(i as int)),
        decreases bytes.len() - i,
    {
        delays.push(bytes[i] ^ FRAME_OFFSET);
        i += 1;
        assert(delays@ =~= masked(bytes@.take(i as int)));
    }
    assert(bytes@.take(i as int) =~= bytes@);
    delays
}

/// The position of the last line break among the first `end` bytes.
pub open spec fn last_newline(bytes: Seq<u8>, end: int) -> Option<int>
    decreases end,
{
    if end <= 0 {
        None
    } else if bytes[end - 1] == 10 {
        Some(end - 1)
    } else {
        last_newline(bytes, end - 1)
    }
}

/// Where a piece of at most `max` bytes would best end: at the end of the
/// text if it is short enough, behind the last line break among the first
/// `max` bytes if there is one, and after `max` bytes otherwise.
pub open spec fn wanted_cut(bytes: Seq<u8>, max: int) -> int {
    if bytes.len() <= max {
        bytes.len() as int
    } else {
        match last_newline(bytes, max) {
            Some(p) => p + 1,
            None => max,
        }
    }
}

/// The last place at or before `k` where a character ends.
pub open spec fn boundary_down(bytes: Seq<u8>, k: int) -> int
    decreases k,
{
    if k <= 0 {
        0
    } else if is_char_boundary(bytes, k) {
        k
    } else {
        boundary_down(bytes, k - 1)
    }
}

/// The first place at or behind `k` where a character ends.
pub open spec fn boundary_up(bytes: Seq<u8>, k: int) -> int
    decreases bytes.len() - k,
{
    if k >= bytes.len() {
        bytes.len() as int
    } else if is_char_boundary(bytes, k) {
        k
    } else {
        boundary_up(bytes, k + 1)
    }
}

/// Where the first piece ends: where it would best end, moved back to the
/// end of a character; a piece is never empty, so that a text whose first
/// character alone is too wide starts with that character.
pub open spec fn cut(bytes: Seq<u8>, max: int) -> int {
    let d = boundary_down(bytes, wanted_cut(bytes, max));
    if d > 0 {
        d
    } else {
        boundary_up(bytes, 1)
    }
}

/// The first piece is not empty and does not reach beyond the text.
pub proof fn lemma_cut_in_range(bytes: Seq<u8>, max: int)
    requires
        bytes.len() > 0,
        0 <= max,
    ensures
        0 < cut(bytes, max) <= bytes.len(),
{
    lemma_last_newline(bytes, max);
    lemma_boundary_down(bytes, wanted_cut(bytes, max));
    lemma_boundary_up(bytes, 1);
}

/// The last line break lies among the first `end` bytes.
pub proof fn lemma_last_newline(bytes: Seq<u8>, end: int)
    ensures
        match last_newline(bytes, end) {
            Some(p) => 0 <= p < end && bytes[p] == 10,
            None => true,
        },
    decreases end,
{
    if end > 0 && bytes[end - 1] != 10 {
        lemma_last_newline(bytes, end - 1);
    }
}

/// Moving back never leaves the text.
pub proof fn lemma_boundary_down(bytes: Seq<u8>, k: int)
    ensures
        0 <= boundary_down(bytes, k),
        k >= 0 ==> boundary_down(bytes, k) <= k,
        boundary_down(bytes, k) > 0 ==> is_char_boundary(bytes, boundary_down(bytes, k)),
    decreases k,
{
    if k > 0 && !is_char_boundary(bytes, k) {
        lemma_boundary_down(bytes, k - 1);
    }
}

/// Moving on never leaves the text.
pub proof fn lemma_boundary_up(bytes: Seq<u8>, k: int)
    requires
        k <= bytes.len(),
    ensures
        k <= boundary_up(bytes, k) <= bytes.len(),
        boundary_up(bytes, k) < bytes.len() ==> is_char_boundary(bytes, boundary_up(bytes, k)),
    decreases bytes.len() - k,
{
    if k < bytes.len() && !is_char_boundary(bytes, k) {
        lemma_boundary_up(bytes, k + 1);
    }
}

/// The pieces of a text, each cut off where the first piece of what is
/// left ends.
pub open spec fn pieces(bytes: Seq<u8>, max: int) -> Seq<Seq<u8>>
    decreases bytes.len(),
    when 0 <= max
    via pieces_decreases
{
    if bytes.len() == 0 {
        Seq::empty()
    } else {
        seq![bytes.take(cut(bytes, max))] + pieces(bytes.skip(cut(bytes, max)), max)
    }
}

/// What is left after the first piece is shorter than the text.
#[via_fn]
proof fn pieces_decreases(bytes: Seq<u8>, max: int) {
    if bytes.len() > 0 {
        lemma_cut_in_range(bytes, max);
    }
}

/// A text in pieces of at most `max` bytes: the text itself if it is
/// short enough, and its pieces otherwise.
pub open spec fn chunks(bytes: Seq<u8>, max: int) -> Seq<Seq<u8>> {
    if bytes.len() <= max {
        seq![bytes]
    } else {
        pieces(bytes, max)
    }
}

/// The pieces `parts`, put together again.
pub open spec fn joined(parts: Seq<Seq<u8>>) -> Seq<u8>
    decreases parts.len(),
{
    if parts.len() == 0 {
        Seq::empty()
    } else {
        parts[0] + joined(parts.drop_first())
    }
}

/// Cutting loses nothing: the pieces of a text, put together, are the
/// text, and none of them is empty.
pub proof fn lemma_pieces_join(bytes: Seq<u8>, max: int)
    requires
        0 <= max,
    ensures
        joined(pieces(bytes, max)) == bytes,
        forall|i: int| 0 <= i < pieces(bytes, max).len() ==> (#[trigger] pieces(bytes, max)[i]).len() > 0,
    decreases bytes.len(),
{
    if bytes.len() == 0 {
        assert(joined(pieces(bytes, max)) =~= bytes);
    } else {
        lemma_cut_in_range(bytes, max);
        let c = cut(bytes, max);
        let rest = bytes.skip(c);
        lemma_pieces_join(rest, max);
        let all = pieces(bytes, max);
        assert(all == seq![bytes.take(c)] + pieces(rest, max));
        assert(all.drop_first() =~= pieces(rest, max));
        assert(all[0] == bytes.take(c));
        assert(bytes.take(c) + rest =~= bytes);
        assert forall|i: int| 0 <= i < all.len() implies (#[trigger] all[i]).len() > 0 by {
            if i > 0 {
                assert(all[i] == pieces(rest, max)[i - 1]);
            }
        }
    }
}

/// Cutting into chunks loses nothing.
pub proof fn lemma_chunks_join(bytes: Seq<u8>, max: int)
    requires
        0 <= max,
    ensures
        joined(chunks(bytes, max)) == bytes,
{
    if bytes.len() <= max {
        let one = seq![bytes];
        assert(one.drop_first() =~= Seq::<Seq<u8>>::empty());
        assert(joined(one.drop_first()) =~= Seq::<u8>::empty());
        assert(joined(one) =~= bytes);
    } else {
        lemma_pieces_join(bytes, max);
    }
}

/// The bytes of each of a list of strings.
pub open spec fn bytes_of(v: Seq<String>) -> Seq<Seq<u8>> {
    v.map_values(|s: String| encode_utf8(s@))
}

/// Cuts a text into pieces of at most `max_size` bytes for submission. A
/// text that is short enough stays whole. A longer text is cut behind the
/// last line break that the size allows, or at the size where no line
/// break is in reach; a cut that would fall inside a character moves back
/// to where the character begins, and a character that alone is larger
/// than the size makes a piece of its own.
pub fn chunk_content(content: &str, max_size: usize) -> (out: Vec<String>)
    ensures
        bytes_of(out@) == chunks(encode_utf8(content@), max_size as int),
{
    let mut out: Vec<String> = Vec::new();
    if content.as_bytes().len() <= max_size {
        out.push(content.to_owned());
        assert(bytes_of(out@) =~= seq![encode_utf8(content@)]);
        return out;
    }
    let ghost whole = pieces(encode_utf8(content@), max_size as int);
    let mut rest: &str = content;
    assert(bytes_of(out@) + pieces(encode_utf8(rest@), max_size as int) =~= whole);
    while rest.as_bytes().len() > 0
        invariant
            bytes_of(out@) + pieces(encode_utf8(rest@), max_size as int) == whole,
        decreases encode_utf8(rest@).len(),
    {
        let ghost bytes = encode_utf8(rest@);
        let c = first_cut(rest, max_size);
        proof {
            lemma_cut_in_range(bytes, max_size as int);
            vstd::utf8::encode_utf8_valid_utf8(rest@);
            lemma_cut_is_boundary(bytes, max_size as int);
        }
        let (head, tail) = rest.split_at(c);
        let ghost before = bytes_of(out@);
        out.push(head.to_owned());
        proof {
            assert(encode_utf8(head@) == bytes.take(c as int));
            assert(encode_utf8(tail@) == bytes.skip(c as int));
            assert(bytes_of(out@) =~= before + seq![bytes.take(c as int)]);
            assert(pieces(bytes, max_size as int) == seq![bytes.take(c as int)] + pieces(
                bytes.skip(c as int),
                max_size as int,
            ));
            assert(bytes_of(out@) + pieces(encode_utf8(tail@), max_size as int) =~= before
                + pieces(bytes, max_size as int));
        }
        rest = tail;
    }
    assert(pieces(encode_utf8(rest@), max_size as int) =~= Seq::<Seq<u8>>::empty());
    assert(bytes_of(out@) =~= whole);
    out
}

/// A piece is no larger than the size allows, unless not even one
/// character ends within the size.
pub proof fn lemma_cut_within_size(bytes: Seq<u8>, max: int)
    requires
        bytes.len() > 0,
        0 <= max,
    ensures
        cut(bytes, max) <= max || boundary_down(bytes, wanted_cut(bytes, max)) == 0,
{
    lemma_last_newline(bytes, max);
    lemma_boundary_down(bytes, wanted_cut(bytes, max));
}

/// In a text that is encoded as it should be, the first piece ends where
/// a character ends.
pub proof fn lemma_cut_is_boundary(bytes: Seq<u8>, max: int)
    requires
        valid_utf8(bytes),
        bytes.len() > 0,
        0 <= max,
    ensures
        is_char_boundary(bytes, cut(bytes, max)),
{
    lemma_last_newline(bytes, max);
    lemma_boundary_down(bytes, wanted_cut(bytes, max));
    lemma_boundary_up(bytes, 1);
    vstd::utf8::is_char_boundary_start_end_of_seq(bytes);
}

/// Where the first piece of `rest` ends.
fn first_cut(rest: &str, max_size: usize) -> (c: usize)
    requires
        encode_utf8(rest@).len() > 0,
    ensures
        c == cut(encode_utf8(rest@), max_size as int),
{
    let bytes = rest.as_bytes();
    let n = bytes.len();
    let wanted: usize = if n <= max_size {
        n
    } else {
        let mut end: usize = max_size;
        while end > 0 && bytes[end - 1] != 10
            invariant
                end <= max_size < n,
                n == bytes@.len(),
                last_newline(bytes@, max_size as int) == last_newline(bytes@, end as int),
            decreases end,
        {
            end -= 1;
        }
        if end > 0 {
            end
        } else {
            max_size
        }
    };
    assert(wanted == wanted_cut(bytes@, max_size as int));
    let mut d: usize = wanted;
    while d > 0 && !rest.is_char_boundary(d)
        invariant
            d <= wanted <= n,
            bytes@ == encode_utf8(rest@),
            boundary_down(bytes@, wanted as int) == boundary_down(bytes@, d as int),
        decreases d,
    {
        d -= 1;
    }
    if d > 0 {
        return d;
    }
    let mut u: usize = 1;
    while u < n && !rest.is_char_boundary(u)
        invariant
            1 <= u <= n,
            n == bytes@.len(),
            bytes@ == encode_utf8(rest@),
            boundary_up(bytes@, 1) == boundary_up(bytes@, u as int),
        decreases n - u,
    {
        u += 1;
    }
    u
}


/// Whether chrono can tell the moment that lies `secs` seconds after the
/// beginning of 1970.
pub uninterp spec fn chrono_timestamp_exists(secs: int) -> bool;

/// `chrono::DateTime::from_timestamp` with no nanoseconds: whether the
/// moment `secs` seconds after the beginning of 1970 lies in the years
/// that chrono can tell. The answer depends on `secs` alone.
#[verifier::external_body]
fn timestamp_exists(secs: i64) -> (r: bool)
    ensures
        r == chrono_timestamp_exists(secs as int),
{
    chrono::DateTime::from_timestamp(secs, 0).is_some()
}

/// The least number of hours between two submissions.
pub const RATE_LIMIT_HOURS: i64 = 1;

/// Why a submission has to wait.
#[derive(Clone, Copy, Debug, PartialEq, Eq, Structural)]
pub enum RateLimitError {
    /// The time of the last submission is no time at all.
    InvalidTimestamp,
    /// The last submission is too recent; so many minutes are left.
    Wait { minutes: i64 },
}

/// `a` divided by `b`, rounded towards zero.
pub open spec fn quotient(a: int, b: int) -> int
    recommends
        b > 0,
{
    if a >= 0 {
        a / b
    } else {
        -((-a) / b)
    }
}

/// The whole seconds from `last` to the moment `now_secs` seconds and
/// `now_nanos` nanoseconds after the beginning of 1970, rounded towards
/// zero.
pub open spec fn elapsed_seconds(last: int, now_secs: int, now_nanos: int) -> int {
    let secs = now_secs - last;
    if secs < 0 && now_nanos > 0 {
        secs + 1
    } else {
        secs
    }
}

/// Whether a submission may go out now, when the last went out at `last`:
/// it may once a whole hour has passed.
pub open spec fn rate_limit(last_exists: bool, last: int, now_secs: int, now_nanos: int) -> Result<
    (),
    RateLimitError,
> {
    let elapsed = elapsed_seconds(last, now_secs, now_nanos);
    if !last_exists {
        Err(RateLimitError::InvalidTimestamp)
    } else if quotient(elapsed, 3600) < RATE_LIMIT_HOURS {
        Err(RateLimitError::Wait { minutes: (RATE_LIMIT_HOURS * 60 - quotient(elapsed, 60)) as i64 })
    } else {
        Ok(())
    }
}

/// Decides whether a submission may go out, given whether the time of the
/// last one is a time at all.
pub fn rate_limit_decision(last_exists: bool, last: i64, now_secs: i64, now_nanos: u32) -> (r:
    Result<(), RateLimitError>)
    ensures
        r == rate_limit(last_exists, last as int, now_secs as int, now_nanos as int),
{
    if !last_exists {
        return Err(RateLimitError::InvalidTimestamp);
    }
    let secs: i128 = now_secs as i128 - last as i128;
    let elapsed: i128 = if secs < 0 && now_nanos > 0 {
        secs + 1
    } else {
        secs
    };
    let hours: i128 = if elapsed >= 0 {
        elapsed / 3600
    } else {
        -((-elapsed) / 3600)
    };
    if hours < RATE_LIMIT_HOURS as i128 {
        let minutes: i128 = if elapsed >= 0 {
            elapsed / 60
        } else {
            -((-elapsed) / 60)
        };
        Err(RateLimitError::Wait { minutes: (60 - minutes) as i64 })
    } else {
        Ok(())
    }
}

/// Decides whether a submission may go out at the moment `now_secs`
/// seconds and `now_nanos` nanoseconds after the beginning of 1970. Without
/// an earlier submission it may. After one, a whole hour has to pass, and
/// a caller that comes too early is told how many minutes are left.
pub fn check_rate_limit(last: Option<i64>, now_secs: i64, now_nanos: u32) -> (r: Result<
    (),
    RateLimitError,
>)
    ensures
        r == match last {
            Some(t) => rate_limit(
                chrono_timestamp_exists(t as int),
                t as int,
                now_secs as int,
                now_nanos as int,
            ),
            None => Ok(()),
        },
{
    match last {
        Some(t) => rate_limit_decision(timestamp_exists(t), t, now_secs, now_nanos),
        None => Ok(()),
    }
}


/// Whether the regex crate takes `pattern` as a regular expression.
pub uninterp spec fn regex_compiles(pattern: Seq<char>) -> bool;

/// The text `text` with every match of the regular expression `pattern`
/// replaced by `replacement`, in which `$1`, `$2` and so on stand for the
/// groups of the match.
pub uninterp spec fn regex_replace_all(
    pattern: Seq<char>,
    text: Seq<char>,
    replacement: Seq<char>,
) -> Seq<char>;

/// `regex::Regex::new` and then `regex::Regex::replace_all`: the text with
/// every match of the pattern replaced, or nothing where the crate does
/// not take the pattern. In one version of the crate both depend on the
/// arguments alone.
#[verifier::external_body]
fn replace_all(pattern: &str, text: &str, replacement: &str) -> (r: Option<String>)
    ensures
        match r {
            Some(s) => regex_compiles(pattern@) && s@ == regex_replace_all(
                pattern@,
                text@,
                replacement@,
            ),
            None => !regex_compiles(pattern@),
        },
{
    match regex::Regex::new(pattern) {
        Ok(re) => Some(re.replace_all(text, replacement).into_owned()),
        Err(_) => None,
    }
}

/// One rule of redaction applied to a text, if the text is still there:
/// every match of `pattern` gives way to `replacement`. A pattern that
/// cannot be used leaves nothing.
pub open spec fn redact(pattern: Seq<char>, replacement: Seq<char>, text: Option<Seq<char>>) -> Option<
    Seq<char>,
> {
    match text {
        Some(t) => if regex_compiles(pattern) {
            Some(regex_replace_all(pattern, t, replacement))
        } else {
            None
        },
        None => None,
    }
}

/// A log with what looks like a secret taken out, rule by rule: keys of
/// the language model service, keys and secrets that are named as such,
/// the local part of e-mail addresses, telephone numbers, and bearer
/// tokens.
pub open spec fn sanitized(content: Seq<char>) -> Option<Seq<char>> {
    redact(
        r"Bearer\s+[a-zA-Z0-9_\-.]+"@,
        "Bearer [TOKEN_REDACTED]"@,
        redact(
            r"\+?[0-9]{10,15}"@,
            "[PHONE_REDACTED]"@,
            redact(
                r"([a-zA-Z0-9._%+-]+)@([a-zA-Z0-9.-]+\.[a-zA-Z]{2,})"@,
                "[EMAIL]@$2"@,
                redact(
                    r#"(?i)(api[_-]?key|apikey|api_secret|secret[_-]?key)\s*[:=]\s*["']?[a-zA-Z0-9_\-]{16,}["']?"#@,
                    "[API_KEY_REDACTED]"@,
                    redact(r"sk-[a-zA-Z0-9]{20,}"@, "[OPENAI_API_KEY_REDACTED]"@, Some(content)),
                ),
            ),
        ),
    )
}

/// Applies one rule of redaction to a text, if the text is still there.
fn redact_with(pattern: &str, replacement: &str, text: Option<String>) -> (r: Option<String>)
    ensures
        crate::text::opt_view(r) == redact(
            pattern@,
            replacement@,
            crate::text::opt_view(text),
        ),
{
    match text {
        Some(t) => replace_all(pattern, t.as_str(), replacement),
        None => None,
    }
}

/// Takes what looks like a secret out of a log before it leaves the
/// machine. The rules are applied one after the other, each to the result
/// of the one before. A log that cannot be put through every rule is not
/// handed out at all.
pub fn sanitize_log_content(content: &str) -> (r: Option<String>)
    ensures
        crate::text::opt_view(r) == sanitized(content@),
{
    let t = redact_with(
        r"sk-[a-zA-Z0-9]{20,}",
        "[OPENAI_API_KEY_REDACTED]",
        Some(content.to_owned()),
    );
    let t = redact_with(
        r#"(?i)(api[_-]?key|apikey|api_secret|secret[_-]?key)\s*[:=]\s*["']?[a-zA-Z0-9_\-]{16,}["']?"#,
        "[API_KEY_REDACTED]",
        t,
    );
    let t = redact_with(
        r"([a-zA-Z0-9._%+-]+)@([a-zA-Z0-9.-]+\.[a-zA-Z]{2,})",
        "[EMAIL]@$2",
        t,
    );
    let t = redact_with(r"\+?[0-9]{10,15}", "[PHONE_REDACTED]", t);
    redact_with(r"Bearer\s+[a-zA-Z0-9_\-.]+", "Bearer [TOKEN_REDACTED]", t)
}

/// The largest log that is submitted, in bytes.
pub const MAX_LOG_SIZE: usize = 180000;

/// The largest comment that the issue tracker takes, in bytes, with room
/// to spare.
pub const MAX_COMMENT_SIZE: usize = 60000;

/// The room that a comment leaves for the text around the log.
pub const COMMENT_OVERHEAD: usize = 500;

/// The end of a log: the text from the byte `start` on.
pub open spec fn tail_from(content: Seq<char>, start: int) -> Seq<char> {
    decode_utf8(encode_utf8(content).skip(start))
}

/// Where the end of a log that is too large begins: as many bytes before
/// the end as a log may have, moved on to where a character begins.
pub open spec fn tail_start(content: Seq<char>) -> int {
    boundary_up(encode_utf8(content), encode_utf8(content).len() - MAX_LOG_SIZE)
}

/// A log as it is submitted: whole if it is small enough, and otherwise
/// its end, with a first line that says how many bytes are missing.
pub open spec fn truncated_log(content: Seq<char>) -> Seq<char> {
    if encode_utf8(content).len() <= MAX_LOG_SIZE {
        content
    } else {
        "[... "@ + digits(tail_start(content) as nat) + " bytes truncated from start ...]\n"@
            + tail_from(content, tail_start(content))
    }
}

/// Cuts a log down to the size that is submitted, keeping its end, where
/// the latest entries are.
pub fn truncate_log(content: &str) -> (r: String)
    ensures
        r@ == truncated_log(content@),
{
    let bytes = content.as_bytes();
    let n = bytes.len();
    if n <= MAX_LOG_SIZE {
        return content.to_owned();
    }
    let mut start: usize = n - MAX_LOG_SIZE;
    while start < n && !content.is_char_boundary(start)
        invariant
            n - MAX_LOG_SIZE <= start <= n,
            n == bytes@.len(),
            bytes@ == encode_utf8(content@),
            boundary_up(bytes@, n - MAX_LOG_SIZE) == boundary_up(bytes@, start as int),
        decreases n - start,
    {
        start += 1;
    }
    proof {
        vstd::utf8::encode_utf8_valid_utf8(content@);
        vstd::utf8::is_char_boundary_start_end_of_seq(bytes@);
    }
    let (_, tail) = content.split_at(start);
    proof {
        vstd::utf8::encode_utf8_decode_utf8(tail@);
        assert(encode_utf8(tail@) == bytes@.skip(start as int));
    }
    let mut r = String::new();
    r.append("[... ");
    r.append(digits_string(start as u64).as_str());
    r.append(" bytes truncated from start ...]\n");
    r.append(tail);
    assert(r@ =~= truncated_log(content@));
    r
}

/// Whether a file of the name `name` is a log: its extension is `log`.
pub open spec fn log_name(name: Seq<char>) -> bool {
    name.len() > 4 && name.skip(name.len() - 4) == ".log"@
}

/// Whether a file of the name `name` is a log.
pub fn is_log_file(name: &str) -> (r: bool)
    ensures
        r == log_name(name@),
{
    let v = chars_of(name);
    let n = v.len();
    if n <= 4 {
        return false;
    }
    proof {
        reveal_strlit(".log");
    }
    let ghost end = v@.skip(n - 4);
    assert(end.len() == 4);
    assert(end[0] == v@[n - 4] && end[1] == v@[n - 3] && end[2] == v@[n - 2] && end[3] == v@[n
        - 1]);
    let r = v[n - 4] == '.' && v[n - 3] == 'l' && v[n - 2] == 'o' && v[n - 1] == 'g';
    assert(r ==> end =~= ".log"@);
    r
}

/// A file of the log directory: its name and when it was last written, in
/// nanoseconds since the beginning of 1970; zero where that is not known.
#[derive(Debug)]
pub struct LogFileInfo {
    pub name: String,
    pub modified: u128,
}

/// `i` is the log of `files` to submit: the log that was written last,
/// and of several that were written at the same time the first.
pub open spec fn is_latest_log(files: Seq<LogFileInfo>, i: int) -> bool {
    &&& 0 <= i < files.len()
    &&& log_name(files[i].name@)
    &&& forall|j: int|
        0 <= j < files.len() && log_name((#[trigger] files[j]).name@) ==> files[j].modified
            <= files[i].modified
    &&& forall|j: int|
        0 <= j < i && log_name((#[trigger] files[j]).name@) ==> files[j].modified
            < files[i].modified
}

/// Picks the log to submit among the files of the log directory: the one
/// that was written last. There is none where no file is a log.
pub fn latest_log(files: &Vec<LogFileInfo>) -> (r: Option<usize>)
    ensures
        match r {
            Some(i) => is_latest_log(files@, i as int),
            None => forall|j: int| 0 <= j < files.len() ==> !log_name((#[trigger] files@[j]).name@),
        },
{
    let mut best: Option<usize> = None;
    let mut i: usize = 0;
    while i < files.len()
        invariant
            i <= files.len(),
            match best {
                Some(b) => b < i && is_latest_log(files@.take(i as int), b as int),
                None => forall|j: int| 0 <= j < i ==> !log_name((#[trigger] files@[j]).name@),
            },
        decreases files.len() - i,
    {
        let ghost seen = files@.take(i as int);
        let ghost next = files@.take(i + 1);
        assert forall|j: int| 0 <= j < i implies #[trigger] next[j] == seen[j] by {}
        assert(next[i as int] == files@[i as int]);
        if is_log_file(files[i].name.as_str()) {
            match best {
                Some(b) => {
                    if files[i].modified > files[b].modified {
                        assert(is_latest_log(next, i as int)) by {
                            assert forall|j: int| 0 <= j < i && log_name(
                                (#[trigger] next[j]).name@,
                            ) implies next[j].modified < next[i as int].modified by {
                                assert(log_name(seen[j].name@));
                                assert(seen[j].modified <= seen[b as int].modified);
                            }
                        }
                        best = Some(i);
                    } else {
                        assert(is_latest_log(next, b as int)) by {
                            assert forall|j: int| 0 <= j < next.len() && log_name(
                                (#[trigger] next[j]).name@,
                            ) implies next[j].modified <= next[b as int].modified by {
                                if j < i {
                                    assert(log_name(seen[j].name@));
                                }
                            }
                            assert forall|j: int| 0 <= j < b && log_name(
                                (#[trigger] next[j]).name@,
                            ) implies next[j].modified < next[b as int].modified by {
                                assert(log_name(seen[j].name@));
                            }
                        }
                    }
                },
                None => {
                    assert(is_latest_log(next, i as int));
                    best = Some(i);
                },
            }
        } else {
            match best {
                Some(b) => {
                    assert(is_latest_log(next, b as int)) by {
                        assert forall|j: int| 0 <= j < next.len() && log_name(
                            (#[trigger] next[j]).name@,
                        ) implies next[j].modified <= next[b as int].modified by {
                            if j < i {
                                assert(log_name(seen[j].name@));
                            }
                        }
                        assert forall|j: int| 0 <= j < b && log_name(
                            (#[trigger] next[j]).name@,
                        ) implies next[j].modified < next[b as int].modified by {
                            assert(log_name(seen[j].name@));
                        }
                    }
                },
                None => {},
            }
        }
        i += 1;
    }
    assert(files@.take(i as int) =~= files@);
    best
}


/// The name of the file that keeps the time of the last submission.
pub const RATE_LIMIT_FILE: &'static str = "last_log_submission.txt";

/// The name of the directory that holds the logs.
pub const LOG_DIRECTORY: &'static str = "logs";

/// The project that takes the submissions.
pub const GITHUB_REPO: &'static str = "polajenko/inbox-hunter";

/// The time of the last submission, in seconds since the beginning of
/// 1970, as the file that keeps it says: a number between white space.
/// There is none where there is no file, or where the file holds
/// something else.
pub fn get_last_log_submission(recorded: Option<&str>) -> (r: Option<i64>)
    ensures
        match r {
            Some(t) => recorded matches Some(text) && parsed_i64(trimmed(text@)) == Some(t as int),
            None => recorded matches Some(text) ==> parsed_i64(trimmed(text@)) is None,
        },
{
    match recorded {
        Some(text) => parse_trimmed_i64(text),
        None => None,
    }
}

/// What the file that keeps the time of the last submission holds after a
/// submission at `now_secs` seconds since the beginning of 1970.
pub fn update_rate_limit(now_secs: i64) -> (text: String)
    ensures
        text@ == decimal(now_secs as int),
        now_secs >= 0 ==> text@ == digits(now_secs as nat),
{
    decimal_string(now_secs)
}

/// The title of the issue for a submission with the description
/// `description`: its first fifty characters behind a fixed beginning.
pub open spec fn title_text(description: Seq<char>) -> Seq<char> {
    "Log Submission: "@ + if description.len() <= 50 {
        description
    } else {
        description.take(50)
    }
}

/// The title of the issue that a submission opens.
pub fn issue_title(description: &str) -> (title: String)
    ensures
        title@ == title_text(description@),
{
    let mut d = chars_of(description);
    if d.len() > 50 {
        d.truncate(50);
    }
    assert(d@ =~= if description@.len() <= 50 {
        description@
    } else {
        description@.take(50)
    });
    let mut title = String::new();
    title.append("Log Submission: ");
    title.append(string_of(&d).as_str());
    assert(title@ =~= title_text(description@));
    title
}

/// The text of the issue that a submission opens.
pub open spec fn body_text(
    description: Seq<char>,
    os: Seq<char>,
    arch: Seq<char>,
    version: Seq<char>,
    filename: Seq<char>,
    log_bytes: nat,
) -> Seq<char> {
    "## User Description\n"@ + description + "\n\n## System Info\n- **OS**: "@ + os
        + "\n- **Architecture**: "@ + arch + "\n- **App Version**: "@ + version
        + "\n\n## Log File\n`"@ + filename + "` ("@ + digits(log_bytes)
        + " bytes) will be attached as comment(s) below.\n\n---\n*This issue was automatically submitted from InboxHunter app.*"@
}

/// The text of the issue that a submission opens: what the user wrote,
/// the system, and the name and size of the log that follows in the
/// comments.
pub fn issue_body(
    description: &str,
    os: &str,
    arch: &str,
    version: &str,
    filename: &str,
    log_bytes: usize,
) -> (body: String)
    ensures
        body@ == body_text(description@, os@, arch@, version@, filename@, log_bytes as nat),
{
    let mut body = String::new();
    body.append("## User Description\n");
    body.append(description);
    body.append("\n\n## System Info\n- **OS**: ");
    body.append(os);
    body.append("\n- **Architecture**: ");
    body.append(arch);
    body.append("\n- **App Version**: ");
    body.append(version);
    body.append("\n\n## Log File\n`");
    body.append(filename);
    body.append("` (");
    body.append(digits_string(log_bytes as u64).as_str());
    body.append(
        " bytes) will be attached as comment(s) below.\n\n---\n*This issue was automatically submitted from InboxHunter app.*",
    );
    assert(body@ =~= body_text(description@, os@, arch@, version@, filename@, log_bytes as nat));
    body
}

/// The text of the comment that carries the piece `chunk` of the log
/// `filename`, the piece number `index` of `count`, counted from zero. A
/// log in one piece is not numbered.
pub open spec fn comment_text(filename: Seq<char>, chunk: Seq<char>, index: nat, count: nat) -> Seq<
    char,
> {
    "## Log File: `"@ + filename + "`"@ + if count == 1 {
        Seq::<char>::empty()
    } else {
        " (Part "@ + digits(index + 1) + "/"@ + digits(count) + ")"@
    } + "\n\n<details>\n<summary>Click to expand</summary>\n\n```\n"@ + chunk
        + "\n```\n\n</details>"@
}

/// The text of the comment that carries one piece of the log.
pub fn comment_body(filename: &str, chunk: &str, index: usize, count: usize) -> (body: String)
    requires
        index < count,
    ensures
        body@ == comment_text(filename@, chunk@, index as nat, count as nat),
{
    let mut body = String::new();
    body.append("## Log File: `");
    body.append(filename);
    body.append("`");
    if count != 1 {
        body.append(" (Part ");
        body.append(digits_string((index + 1) as u64).as_str());
        body.append("/");
        body.append(digits_string(count as u64).as_str());
        body.append(")");
    }
    body.append("\n\n<details>\n<summary>Click to expand</summary>\n\n```\n");
    body.append(chunk);
    body.append("\n```\n\n</details>");
    assert(body@ =~= comment_text(filename@, chunk@, index as nat, count as nat));
    body
}

/// The address at which issues of the project are opened.
pub fn issues_url() -> (url: String)
    ensures
        url@ == "https://api.github.com/repos/"@ + GITHUB_REPO@ + "/issues"@,
{
    let mut url = String::new();
    url.append("https://api.github.com/repos/");
    url.append(GITHUB_REPO);
    url.append("/issues");
    assert(url@ =~= "https://api.github.com/repos/"@ + GITHUB_REPO@ + "/issues"@);
    url
}

/// The address at which comments are added to the issue `number`.
pub fn comments_url(number: i32) -> (url: String)
    ensures
        url@ == "https://api.github.com/repos/"@ + GITHUB_REPO@ + "/issues/"@ + decimal(
            number as int,
        ) + "/comments"@,
{
    let mut url = String::new();
    url.append("https://api.github.com/repos/");
    url.append(GITHUB_REPO);
    url.append("/issues/");
    url.append(decimal_string(number as i64).as_str());
    url.append("/comments");
    assert(url@ =~= "https://api.github.com/repos/"@ + GITHUB_REPO@ + "/issues/"@ + decimal(
        number as int,
    ) + "/comments"@);
    url
}

/// The value of the header that shows the access token.
pub fn authorization(token: &str) -> (value: String)
    ensures
        value@ == "Bearer "@ + token@,
{
    let mut value = String::new();
    value.append("Bearer ");
    value.append(token);
    assert(value@ =~= "Bearer "@ + token@);
    value
}

/// What the user is told when the issue tracker refuses.
pub fn api_error_message(status: &str, body: &str) -> (message: String)
    ensures
        message@ == "GitHub API error ("@ + status@ + "): "@ + body@,
{
    let mut message = String::new();
    message.append("GitHub API error (");
    message.append(status);
    message.append("): ");
    message.append(body);
    assert(message@ =~= "GitHub API error ("@ + status@ + "): "@ + body@);
    message
}

impl RateLimitError {
    /// What the user is told.
    pub fn message(&self) -> (m: String)
        ensures
            m@ == match *self {
                RateLimitError::InvalidTimestamp => "Invalid timestamp"@,
                RateLimitError::Wait { minutes } => "Rate limit: Please wait "@ + decimal(
                    minutes as int,
                ) + " minutes before submitting logs again"@,
            },
    {
        match self {
            RateLimitError::InvalidTimestamp => "Invalid timestamp".to_owned(),
            RateLimitError::Wait { minutes } => {
                let mut m = String::new();
                m.append("Rate limit: Please wait ");
                m.append(decimal_string(*minutes).as_str());
                m.append(" minutes before submitting logs again");
                assert(m@ =~= "Rate limit: Please wait "@ + decimal(*minutes as int)
                    + " minutes before submitting logs again"@);
                m
            },
        }
    }
}

/// How a submission ended.
#[derive(Debug)]
pub struct LogSubmissionResult {
    pub success: bool,
    pub issue_url: Option<String>,
    pub error: Option<String>,
}

impl LogSubmissionResult {
    /// The result of a submission that opened the issue at `issue_url`.
    pub fn submitted(issue_url: String) -> (r: LogSubmissionResult)
        ensures
            r.success,
            r.issue_url == Some(issue_url),
            r.error is None,
    {
        LogSubmissionResult { success: true, issue_url: Some(issue_url), error: None }
    }
}

/// The size of the pieces in which a log is submitted.
pub fn comment_chunk_size() -> (n: usize)
    ensures
        n == MAX_COMMENT_SIZE - COMMENT_OVERHEAD,
{
    MAX_COMMENT_SIZE - COMMENT_OVERHEAD
}


} // verus!
