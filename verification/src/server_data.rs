//! Server data as Steam server rules: the compressed payload split into
//! base64 chunks of 93 bytes (`MyCachedServerItem.SendSettingsToSteam` and
//! `DeserializeSettings`).
//!
//! Rule keys:
//! - `"sc"`: the total compressed byte count (decimal string)
//! - `"sc0"`, `"sc1"`, ...: the base64 chunks
use crate::compression::{compress, decompress, gzip_encoded, le_u32_bytes, spec_decompress, CompressionError};
use base64::Engine;
use vstd::prelude::*;
use vstd::string::StringExecFns;

verus! {

/// Bytes per rule chunk.
pub const RULE_CHUNK_SIZE: usize = 93;

/// The base64 text (standard alphabet, padded) of some bytes, as the
/// `base64` crate's `STANDARD` engine writes it.
pub uninterp spec fn base64_encoded(data: Seq<u8>) -> Seq<char>;

/// The bytes of a base64 text (standard alphabet, padded) as the `base64`
/// crate's `STANDARD` engine reads them; `None` where it reports an error.
pub uninterp spec fn base64_decoded(text: Seq<char>) -> Option<Seq<u8>>;

/// The ASCII digit of a number under ten.
pub open spec fn digit_char(d: nat) -> char {
    (48 + d) as char
}

/// Whether a character is an ASCII digit.
pub open spec fn is_digit(c: char) -> bool {
    48 <= c as int <= 57
}

/// The decimal digits of a number, most significant first, with no
/// leading zero (`"0"` for zero).
pub open spec fn decimal_digits(n: nat) -> Seq<char>
    decreases n,
{
    if n < 10 {
        seq![digit_char(n)]
    } else {
        decimal_digits(n / 10).push(digit_char(n % 10))
    }
}

/// The decimal text of a number, as `usize`'s `Display` writes it.
pub open spec fn decimal_of(n: usize) -> Seq<char> {
    decimal_digits(n as nat)
}

/// The number that ASCII digits write, most significant first.
pub open spec fn digits_value(s: Seq<char>) -> int
    decreases s.len(),
{
    if s.len() == 0 {
        0
    } else {
        digits_value(s.drop_last()) * 10 + (s.last() as int - 48)
    }
}

/// What `str::parse::<usize>` reads from a text: an optional `+`, then one
/// or more ASCII digits whose number fits in a `usize`; `None` otherwise.
pub open spec fn parsed_usize(s: Seq<char>) -> Option<usize> {
    let d = if s.len() >= 1 && s[0] == '+' {
        s.drop_first()
    } else {
        s
    };
    if d.len() >= 1 && (forall|i: int| 0 <= i < d.len() ==> is_digit(#[trigger] d[i])) && digits_value(d)
        <= usize::MAX {
        Some(digits_value(d) as usize)
    } else {
        None
    }
}

/// The decimal text of a number is ASCII digits, not empty, and writes
/// that number.
proof fn lemma_decimal_digits(n: nat)
    ensures
        decimal_digits(n).len() >= 1,
        forall|i: int| 0 <= i < decimal_digits(n).len() ==> is_digit(#[trigger] decimal_digits(n)[i]),
        digits_value(decimal_digits(n)) == n,
    decreases n,
{
    if n >= 10 {
        lemma_decimal_digits(n / 10);
        let t = decimal_digits(n);
        assert(t.drop_last() =~= decimal_digits(n / 10));
        assert(t.last() == digit_char(n % 10));
        assert(digit_char(n % 10) as int == 48 + n % 10);
        assert(digits_value(t) == digits_value(decimal_digits(n / 10)) * 10 + (n % 10));
        assert((n / 10) * 10 + n % 10 == n);
        assert forall|i: int| 0 <= i < t.len() implies is_digit(#[trigger] t[i]) by {
            if i < t.len() - 1 {
                assert(t[i] == decimal_digits(n / 10)[i]);
            }
        }
    } else {
        assert(digit_char(n) as int == 48 + n);
        assert(decimal_digits(n).drop_last() =~= Seq::<char>::empty());
        assert(digits_value(decimal_digits(n)) == digits_value(Seq::<char>::empty()) * 10 + n);
    }
}

/// `str::parse::<usize>` reads a number back from its decimal text, and
/// that text is not empty.
pub proof fn lemma_decimal_parse(n: usize)
    ensures
        decimal_of(n).len() >= 1,
        parsed_usize(decimal_of(n)) == Some(n),
{
    lemma_decimal_digits(n as nat);
    let t = decimal_of(n);
    assert(is_digit(t[0]));
    assert(t[0] != '+');
}

/// Calls `Engine::encode` of `base64::prelude::BASE64_STANDARD`. The text
/// is a function of the bytes, named `base64_encoded`; decoding it with
/// the same engine gives the bytes back.
#[verifier::external_body]
fn base64_encode(data: &[u8]) -> (s: String)
    ensures
        s@ == base64_encoded(data@),
        base64_decoded(s@) == Some(data@),
{
    base64::prelude::BASE64_STANDARD.encode(data)
}

/// Calls `Engine::decode` of `base64::prelude::BASE64_STANDARD`; an error
/// becomes `None`. The result is a function of the text, named
/// `base64_decoded`.
#[verifier::external_body]
fn base64_decode(text: &str) -> (r: Option<Vec<u8>>)
    ensures
        match base64_decoded(text@) {
            Some(d) => r matches Some(v) && v@ == d,
            None => r is None,
        },
{
    base64::prelude::BASE64_STANDARD.decode(text).ok()
}

/// Calls `ToString::to_string` on a `usize`: its decimal text, as
/// `decimal_of` states it.
#[verifier::external_body]
fn decimal_string(n: usize) -> (s: String)
    ensures
        s@ == decimal_of(n),
{
    n.to_string()
}

/// Calls `str::parse::<usize>`; an error becomes `None`. The result is
/// what `parsed_usize` states.
#[verifier::external_body]
fn parse_usize(s: &str) -> (r: Option<usize>)
    ensures
        r == parsed_usize(s@),
{
    s.parse::<usize>().ok()
}

/// Why server rules cannot be decoded.
#[derive(Debug, Clone, PartialEq)]
pub enum ServerDataError {
    /// The `"sc"` key is missing from the rules.
    MissingSizeKey,
    /// The `"sc"` value is no byte count.
    InvalidSizeValue,
    /// A required chunk key (`"sc0"`, `"sc1"`, ...) is missing.
    MissingChunkKey(String),
    /// A chunk is no base64 text.
    Base64,
    /// The assembled bytes do not decompress.
    Decompression(CompressionError),
}

/// The view of a [`ServerDataError`].
pub enum ServerDataErrorView {
    MissingSizeKey,
    InvalidSizeValue,
    MissingChunkKey(Seq<char>),
    Base64,
    Decompression(CompressionError),
}

impl View for ServerDataError {
    type V = ServerDataErrorView;

    open spec fn view(&self) -> ServerDataErrorView {
        match self {
            ServerDataError::MissingSizeKey => ServerDataErrorView::MissingSizeKey,
            ServerDataError::InvalidSizeValue => ServerDataErrorView::InvalidSizeValue,
            ServerDataError::MissingChunkKey(k) => ServerDataErrorView::MissingChunkKey(k@),
            ServerDataError::Base64 => ServerDataErrorView::Base64,
            ServerDataError::Decompression(e) => ServerDataErrorView::Decompression(*e),
        }
    }
}

/// The key of the size rule.
pub open spec fn size_key() -> Seq<char> {
    seq!['s', 'c']
}

/// The key of chunk `i`.
pub open spec fn chunk_key(i: usize) -> Seq<char> {
    size_key() + decimal_of(i)
}

/// The rules as texts.
pub open spec fn rule_views(rules: Seq<(String, String)>) -> Seq<(Seq<char>, Seq<char>)> {
    rules.map_values(|p: (String, String)| (p.0@, p.1@))
}

/// The value of the first rule with a key.
pub open spec fn rule_value(rules: Seq<(Seq<char>, Seq<char>)>, key: Seq<char>) -> Option<Seq<char>>
    decreases rules.len(),
{
    if rules.len() == 0 {
        None
    } else if rules[0].0 == key {
        Some(rules[0].1)
    } else {
        rule_value(rules.drop_first(), key)
    }
}

/// The number of chunks of `total` bytes.
pub open spec fn chunk_count(total: nat) -> nat {
    (total + 92) / 93
}

/// Chunk `i` of some bytes: 93 bytes from `93 * i`, fewer at the end.
pub open spec fn chunk_of(c: Seq<u8>, i: int) -> Seq<u8> {
    c.subrange(93 * i, if 93 * i + 93 <= c.len() { 93 * i + 93 } else { c.len() as int })
}

/// `buf` with `chunk` written over it from `start`.
pub open spec fn overwrite(buf: Seq<u8>, start: int, chunk: Seq<u8>) -> Seq<u8> {
    Seq::new(buf.len(), |k: int| if start <= k < start + chunk.len() { chunk[k - start] } else { buf[k] })
}

/// Copying chunks `i..` of `total` bytes into `buf`: an error for a missing
/// key or a chunk that is no base64; `None` for a chunk that runs past the
/// end: decoding is not defined there.
pub open spec fn spec_assemble(rules: Seq<(Seq<char>, Seq<char>)>, total: usize, i: nat, buf: Seq<u8>) -> Option<
    Result<Seq<u8>, ServerDataErrorView>,
>
    decreases chunk_count(total as nat) - i,
{
    if i >= chunk_count(total as nat) || i > usize::MAX {
        Some(Ok(buf))
    } else {
        match rule_value(rules, chunk_key(i as usize)) {
            None => Some(Err(ServerDataErrorView::MissingChunkKey(chunk_key(i as usize)))),
            Some(text) => match base64_decoded(text) {
                None => Some(Err(ServerDataErrorView::Base64)),
                Some(chunk) => if 93 * i + chunk.len() > total {
                    None
                } else {
                    spec_assemble(rules, total, i + 1, overwrite(buf, (93 * i) as int, chunk))
                },
            },
        }
    }
}

/// Decoding rules: the size rule, read as a byte count; the chunks copied
/// into that many zero bytes; those bytes decompressed. `None` where a
/// chunk runs past the byte count.
pub open spec fn spec_decode_rules(rules: Seq<(Seq<char>, Seq<char>)>) -> Option<
    Result<Seq<u8>, ServerDataErrorView>,
> {
    match rule_value(rules, size_key()) {
        None => Some(Err(ServerDataErrorView::MissingSizeKey)),
        Some(s) => match parsed_usize(s) {
            None => Some(Err(ServerDataErrorView::InvalidSizeValue)),
            Some(total) => match spec_assemble(rules, total, 0, Seq::new(total as nat, |k: int| 0u8)) {
                None => None,
                Some(Err(e)) => Some(Err(e)),
                Some(Ok(c)) => Some(
                    match spec_decompress(c) {
                        Ok(d) => Ok(d),
                        Err(e) => Err(ServerDataErrorView::Decompression(e)),
                    },
                ),
            },
        },
    }
}

/// The rules of compressed bytes: the size rule, then one rule per chunk.
pub open spec fn spec_rules_of(c: Seq<u8>) -> Seq<(Seq<char>, Seq<char>)> {
    seq![(size_key(), decimal_of(c.len() as usize))] + Seq::new(
        chunk_count(c.len()),
        |i: int| (chunk_key(i as usize), base64_encoded(chunk_of(c, i))),
    )
}

/// The text "sc".
fn size_key_string() -> (s: String)
    ensures
        s@ == size_key(),
{
    let s = String::from_str("sc");
    proof {
        reveal_strlit("sc");
    }
    assert(s@ =~= size_key());
    s
}

/// The key of chunk `i`, with what `decimal_string` states of its number.
fn chunk_key_string(i: usize) -> (s: String)
    ensures
        s@ == chunk_key(i),
        decimal_of(i).len() >= 1,
        parsed_usize(decimal_of(i)) == Some(i),
{
    let mut s = size_key_string();
    let d = decimal_string(i);
    s.append(d.as_str());
    proof {
        lemma_decimal_parse(i);
    }
    s
}

/// The index of the first rule with a key.
fn find_rule(rules: &Vec<(String, String)>, key: &String) -> (r: Option<usize>)
    ensures
        match r {
            Some(j) => j < rules@.len() && rule_value(rule_views(rules@), key@) == Some(rules@[j as int].1@),
            None => rule_value(rule_views(rules@), key@) is None,
        },
{
    let ghost rv = rule_views(rules@);
    let mut j: usize = 0;
    assert(rv.skip(0) =~= rv);
    while j < rules.len()
        invariant
            j <= rules@.len(),
            rv == rule_views(rules@),
            rule_value(rv, key@) == rule_value(rv.skip(j as int), key@),
        decreases rules.len() - j,
    {
        assert(rv.skip(j as int)[0] == rv[j as int]);
        assert(rv.skip(j as int).drop_first() =~= rv.skip(j + 1));
        if rules[j].0 == *key {
            return Some(j);
        }
        j = j + 1;
    }
    None
}

/// Copy the chunks into `total` zero bytes; `None` for a chunk that runs
/// past the end.
fn assemble(rules: &Vec<(String, String)>, total: usize) -> (r: Option<Result<Vec<u8>, ServerDataError>>)
    ensures
        match spec_assemble(rule_views(rules@), total, 0, Seq::new(total as nat, |k: int| 0u8)) {
            None => r is None,
            Some(Ok(c)) => r matches Some(Ok(v)) && v@ == c,
            Some(Err(e)) => r matches Some(Err(x)) && x@ == e,
        },
{
    let ghost rv = rule_views(rules@);
    let mut buf: Vec<u8> = Vec::new();
    let mut k: usize = 0;
    while k < total
        invariant
            k <= total,
            buf@ =~= Seq::new(k as nat, |m: int| 0u8),
        decreases total - k,
    {
        buf.push(0);
        k = k + 1;
    }
    let n = total / RULE_CHUNK_SIZE + if total % RULE_CHUNK_SIZE == 0 {
        0
    } else {
        1
    };
    assert(n == chunk_count(total as nat));
    let mut i: usize = 0;
    while i < n
        invariant
            i <= n,
            n == chunk_count(total as nat),
            n <= total,
            rv == rule_views(rules@),
            buf@.len() == total,
            spec_assemble(rv, total, 0, Seq::new(total as nat, |k: int| 0u8)) == spec_assemble(
                rv,
                total,
                i as nat,
                buf@,
            ),
        decreases n - i,
    {
        let key = chunk_key_string(i);
        let text = match find_rule(rules, &key) {
            Some(j) => rules[j].1.as_str(),
            None => {
                return Some(Err(ServerDataError::MissingChunkKey(key)));
            },
        };
        let chunk = match base64_decode(text) {
            Some(c) => c,
            None => {
                return Some(Err(ServerDataError::Base64));
            },
        };
        let start = i * RULE_CHUNK_SIZE;
        if chunk.len() > total - start {
            return None;
        }
        let ghost before = buf@;
        let mut m: usize = 0;
        while m < chunk.len()
            invariant
                m <= chunk@.len(),
                start + chunk@.len() <= total,
                buf@.len() == total,
                before.len() == total,
                forall|q: int|
                    0 <= q < total ==> buf@[q] == (if start <= q < start + m {
                        chunk@[q - start]
                    } else {
                        before[q]
                    }),
            decreases chunk.len() - m,
        {
            buf.set(start + m, chunk[m]);
            m = m + 1;
        }
        assert(buf@ =~= overwrite(before, start as int, chunk@));
        i = i + 1;
    }
    Some(Ok(buf))
}

/// The first rule with a key is found where it stands.
proof fn lemma_rule_value_at(rules: Seq<(Seq<char>, Seq<char>)>, idx: int, key: Seq<char>)
    requires
        0 <= idx < rules.len(),
        rules[idx].0 == key,
        forall|q: int| 0 <= q < idx ==> (#[trigger] rules[q]).0 != key,
    ensures
        rule_value(rules, key) == Some(rules[idx].1),
    decreases idx,
{
    if idx > 0 {
        let rest = rules.drop_first();
        assert forall|q: int| 0 <= q < idx - 1 implies (#[trigger] rest[q]).0 != key by {
            assert(rest[q] == rules[q + 1]);
        }
        assert(rest[idx - 1] == rules[idx]);
        lemma_rule_value_at(rest, idx - 1, key);
    }
}

/// What the encoding of compressed bytes states of its numbers and chunks.
pub open spec fn rules_facts(c: Seq<u8>) -> bool {
    &&& c.len() <= usize::MAX
    &&& parsed_usize(decimal_of(c.len() as usize)) == Some(c.len() as usize)
    &&& forall|j: int|
        #![trigger decimal_of(j as usize)]
        0 <= j < chunk_count(c.len()) ==> decimal_of(j as usize).len() >= 1 && parsed_usize(
            decimal_of(j as usize),
        ) == Some(j as usize)
    &&& forall|j: int|
        #![trigger chunk_of(c, j)]
        0 <= j < chunk_count(c.len()) ==> base64_decoded(base64_encoded(chunk_of(c, j))) == Some(chunk_of(c, j))
}

/// Copying the chunks of `c` from chunk `i` on, into bytes that already
/// agree with `c` before `93 * i`, gives `c`.
proof fn lemma_assemble_from(c: Seq<u8>, i: nat, buf: Seq<u8>)
    requires
        rules_facts(c),
        i <= chunk_count(c.len()),
        buf.len() == c.len(),
        forall|k: int| 0 <= k < 93 * i && k < c.len() ==> buf[k] == c[k],
    ensures
        spec_assemble(spec_rules_of(c), c.len() as usize, i, buf) == Some(Ok::<Seq<u8>, ServerDataErrorView>(c)),
    decreases chunk_count(c.len()) - i,
{
    let n = chunk_count(c.len());
    let rules = spec_rules_of(c);
    if i >= n {
        assert(buf =~= c);
    } else {
        let key = chunk_key(i as usize);
        assert(rules[i + 1 as int] == (chunk_key(i as usize), base64_encoded(chunk_of(c, i as int))));
        assert forall|q: int| 0 <= q < i + 1 implies (#[trigger] rules[q]).0 != key by {
            if q == 0 {
                assert(decimal_of(i as usize).len() >= 1);
                assert(rules[0].0.len() != key.len());
            } else {
                let j = q - 1;
                assert(rules[q] == (chunk_key(j as usize), base64_encoded(chunk_of(c, j))));
                assert(parsed_usize(decimal_of(j as usize)) == Some(j as usize));
                assert(parsed_usize(decimal_of(i as usize)) == Some(i as usize));
                if rules[q].0 == key {
                    assert(decimal_of(j as usize) =~= rules[q].0.skip(2));
                    assert(decimal_of(i as usize) =~= key.skip(2));
                }
            }
        }
        lemma_rule_value_at(rules, (i + 1) as int, key);
        let chunk = chunk_of(c, i as int);
        assert(base64_decoded(base64_encoded(chunk)) == Some(chunk));
        let next = overwrite(buf, (93 * i) as int, chunk);
        assert forall|k: int| 0 <= k < 93 * (i + 1) && k < c.len() implies next[k] == c[k] by {
            if k >= 93 * i {
                assert(next[k] == chunk[k - 93 * i]);
            }
        }
        lemma_assemble_from(c, i + 1, next);
    }
}

/// The rules of compressed bytes decode to what the bytes decompress to.
proof fn lemma_rules_decode(c: Seq<u8>, payload: Seq<u8>)
    requires
        rules_facts(c),
        spec_decompress(c) == Ok::<Seq<u8>, CompressionError>(payload),
    ensures
        spec_decode_rules(spec_rules_of(c)) == Some(Ok::<Seq<u8>, ServerDataErrorView>(payload)),
{
    let rules = spec_rules_of(c);
    assert(rules[0] == (size_key(), decimal_of(c.len() as usize)));
    lemma_rule_value_at(rules, 0, size_key());
    lemma_assemble_from(c, 0, Seq::new(c.len(), |k: int| 0u8));
}

/// No two rules of compressed bytes share a key.
proof fn lemma_rules_keys_distinct(c: Seq<u8>)
    requires
        rules_facts(c),
    ensures
        forall|p: int, q: int|
            0 <= p < q < spec_rules_of(c).len() ==> (#[trigger] spec_rules_of(c)[p]).0 != (
            #[trigger] spec_rules_of(c)[q]).0,
{
    let rules = spec_rules_of(c);
    assert forall|p: int, q: int| 0 <= p < q < rules.len() implies (#[trigger] rules[p]).0 != (
    #[trigger] rules[q]).0 by {
        let j = q - 1;
        assert(rules[q] == (chunk_key(j as usize), base64_encoded(chunk_of(c, j))));
        assert(decimal_of(j as usize).len() >= 1);
        if p == 0 {
            assert(rules[0].0.len() != rules[q].0.len());
        } else {
            let i = p - 1;
            assert(rules[p] == (chunk_key(i as usize), base64_encoded(chunk_of(c, i))));
            assert(decimal_of(i as usize).len() >= 1);
            if rules[p].0 == rules[q].0 {
                assert(decimal_of(i as usize) =~= rules[p].0.skip(2));
                assert(decimal_of(j as usize) =~= rules[q].0.skip(2));
            }
        }
    }
}

/// Encode a payload (the server data's protobuf bytes) as Steam rules, in
/// order, no two with the same key: the payload compressed (its length
/// prefix and gzip stream), then `"sc"` with the compressed length and
/// `"sc0"`, `"sc1"`, ... with its base64 chunks of 93 bytes. Decoding the
/// rules gives the payload back.
pub fn encode_rules(payload: &[u8]) -> (rules: Vec<(String, String)>)
    ensures
        rule_views(rules@) == spec_rules_of(le_u32_bytes(payload@.len() as u32) + gzip_encoded(payload@)),
        forall|p: int, q: int|
            0 <= p < q < rules@.len() ==> (#[trigger] rules@[p]).0@ != (#[trigger] rules@[q]).0@,
        spec_decode_rules(rule_views(rules@)) == Some(Ok::<Seq<u8>, ServerDataErrorView>(payload@)),
{
    let compressed = compress(payload);
    let len = compressed.len();
    let mut rules: Vec<(String, String)> = Vec::new();
    rules.push((size_key_string(), decimal_string(len)));
    proof {
        lemma_decimal_parse(len);
    }
    let n = len / RULE_CHUNK_SIZE + if len % RULE_CHUNK_SIZE == 0 {
        0
    } else {
        1
    };
    let mut i: usize = 0;
    while i < n
        invariant
            i <= n,
            n == chunk_count(len as nat),
            len == compressed@.len(),
            rule_views(rules@) =~= spec_rules_of(compressed@).take(i + 1),
            forall|j: int|
                #![trigger decimal_of(j as usize)]
                0 <= j < i ==> decimal_of(j as usize).len() >= 1 && parsed_usize(decimal_of(j as usize)) == Some(
                    j as usize,
                ),
            forall|j: int|
                #![trigger chunk_of(compressed@, j)]
                0 <= j < i ==> base64_decoded(base64_encoded(chunk_of(compressed@, j))) == Some(
                    chunk_of(compressed@, j),
                ),
            parsed_usize(decimal_of(len)) == Some(len),
        decreases n - i,
    {
        let key = chunk_key_string(i);
        assert(decimal_of((i as int) as usize).len() >= 1);
        assert(parsed_usize(decimal_of((i as int) as usize)) == Some((i as int) as usize));
        assert(93 * i < len) by (nonlinear_arith)
            requires
                i < n,
                n == (len + 92) / 93,
        ;
        let start = i * RULE_CHUNK_SIZE;
        let end = if len - start >= RULE_CHUNK_SIZE {
            start + RULE_CHUNK_SIZE
        } else {
            len
        };
        let mut chunk: Vec<u8> = Vec::new();
        let mut m = start;
        while m < end
            invariant
                start <= m <= end <= compressed@.len(),
                chunk@ =~= compressed@.subrange(start as int, m as int),
            decreases end - m,
        {
            chunk.push(compressed[m]);
            m = m + 1;
        }
        assert(chunk@ =~= chunk_of(compressed@, i as int));
        let text = base64_encode(chunk.as_slice());
        let ghost old_rules = rules@;
        let ghost entry = (key@, text@);
        rules.push((key, text));
        assert(rule_views(rules@) =~= rule_views(old_rules).push(entry));
        assert(spec_rules_of(compressed@)[i + 1] == entry);
        assert(spec_rules_of(compressed@).take(i + 2) =~= spec_rules_of(compressed@).take(i + 1).push(entry));
        i = i + 1;
    }
    assert(spec_rules_of(compressed@).take(n + 1) =~= spec_rules_of(compressed@));
    proof {
        lemma_rules_decode(compressed@, payload@);
        lemma_rules_keys_distinct(compressed@);
        assert forall|p: int, q: int| 0 <= p < q < rules@.len() implies (#[trigger] rules@[p]).0@ != (
        #[trigger] rules@[q]).0@ by {
            assert(rule_views(rules@)[p] == spec_rules_of(compressed@)[p]);
            assert(rule_views(rules@)[q] == spec_rules_of(compressed@)[q]);
        }
    }
    rules
}

/// Decode rules: the size, the chunks, the decompression.
fn decode_core(rules: &Vec<(String, String)>) -> (r: Option<Result<Vec<u8>, ServerDataError>>)
    ensures
        match spec_decode_rules(rule_views(rules@)) {
            None => r is None,
            Some(Ok(d)) => r matches Some(Ok(v)) && v@ == d,
            Some(Err(e)) => r matches Some(Err(x)) && x@ == e,
        },
{
    let size_key = size_key_string();
    let size_text = match find_rule(rules, &size_key) {
        Some(j) => rules[j].1.as_str(),
        None => {
            return Some(Err(ServerDataError::MissingSizeKey));
        },
    };
    let total = match parse_usize(size_text) {
        Some(n) => n,
        None => {
            return Some(Err(ServerDataError::InvalidSizeValue));
        },
    };
    let compressed = match assemble(rules, total) {
        None => {
            return None;
        },
        Some(Err(e)) => {
            return Some(Err(e));
        },
        Some(Ok(c)) => c,
    };
    match decompress(compressed.as_slice()) {
        Ok(d) => Some(Ok(d)),
        Err(e) => Some(Err(ServerDataError::Decompression(e))),
    }
}

/// Decode Steam rules back to the payload: read the `"sc"` byte count,
/// copy the base64 chunks `"sc0"`, `"sc1"`, ... into that many zero bytes,
/// and decompress them. Every chunk must fit in the byte count;
/// [`decode_rules_defined`] tells whether it does.
pub fn decode_rules(rules: &Vec<(String, String)>) -> (r: Result<Vec<u8>, ServerDataError>)
    requires
        spec_decode_rules(rule_views(rules@)) is Some,
    ensures
        match spec_decode_rules(rule_views(rules@)) {
            Some(Ok(d)) => r matches Ok(v) && v@ == d,
            Some(Err(e)) => r matches Err(x) && x@ == e,
            None => false,
        },
{
    match decode_core(rules) {
        Some(r) => r,
        None => Err(ServerDataError::InvalidSizeValue),
    }
}

/// Decode Steam rules as [`decode_rules`] does, where that is defined;
/// `None` where a chunk runs past the byte count.
pub fn try_decode_rules(rules: &Vec<(String, String)>) -> (r: Option<Result<Vec<u8>, ServerDataError>>)
    ensures
        match spec_decode_rules(rule_views(rules@)) {
            None => r is None,
            Some(Ok(d)) => r matches Some(Ok(v)) && v@ == d,
            Some(Err(e)) => r matches Some(Err(x)) && x@ == e,
        },
{
    if decode_rules_defined(rules) {
        Some(decode_rules(rules))
    } else {
        None
    }
}

/// Whether [`decode_rules`] is defined on the rules: whether every chunk
/// it copies fits in the byte count.
pub fn decode_rules_defined(rules: &Vec<(String, String)>) -> (b: bool)
    ensures
        b == spec_decode_rules(rule_views(rules@)) is Some,
{
    decode_core(rules).is_some()
}

} // verus!
