//! Input parsing for the command-line tools: `lines`, `csv` and `jsonl`
//! text into canonical identities, before any network call. Ambiguous
//! chains, duplicate textual forms and invalid addresses are all decided
//! here, offline.

use vstd::prelude::*;

use crate::chars::{
    chars_eq, chars_of, copy_range, find_char, first_index, split_lines, string_of, strip_cr,
    text_lines, trim, trim_bounds,
};
use crate::identity::{is_base58_char, AddressBytes, ChainFamily, ChainKey, ChainResolution};
use crate::bytes::array20_at;
use crate::sorted_map::{law_lookup_after_insert, lookup, KeyId, SortedMap};
use crate::text::{decimal, text_with_number};

verus! {

/// Which format the input is in.
#[derive(Debug, Clone, Copy, PartialEq, Eq, Structural)]
pub enum InputFormat {
    Lines,
    Csv,
    Jsonl,
    /// Detect from content; read as `lines`.
    Auto,
}

/// A chain tag as written in `lines`/`csv` input.
#[derive(Debug, Clone, Copy, PartialEq, Eq, PartialOrd, Ord, Structural)]
pub enum ChainTag {
    Solana,
    Bsc,
    Base,
    Robinhood,
}

/// The tag a text names, if any.
pub open spec fn tag_of_name(s: Seq<char>) -> Option<ChainTag> {
    if s == "solana"@ {
        Some(ChainTag::Solana)
    } else if s == "bsc"@ {
        Some(ChainTag::Bsc)
    } else if s == "base"@ {
        Some(ChainTag::Base)
    } else if s == "robinhood"@ {
        Some(ChainTag::Robinhood)
    } else {
        None
    }
}

/// The family of a tagged chain.
pub open spec fn tag_family(t: ChainTag) -> ChainFamily {
    match t {
        ChainTag::Solana => ChainFamily::Solana,
        _ => ChainFamily::Evm,
    }
}

/// A tag's name as `Debug` prints it.
pub open spec fn tag_debug_name(t: ChainTag) -> Seq<char> {
    match t {
        ChainTag::Solana => "Solana"@,
        ChainTag::Bsc => "Bsc"@,
        ChainTag::Base => "Base"@,
        ChainTag::Robinhood => "Robinhood"@,
    }
}

impl ChainTag {
    fn parse(s: &[char]) -> (r: Option<ChainTag>)
        ensures
            r == tag_of_name(s@),
    {
        let solana = chars_of("solana");
        let bsc = chars_of("bsc");
        let base = chars_of("base");
        let robinhood = chars_of("robinhood");
        if chars_eq(s, solana.as_slice()) {
            Some(ChainTag::Solana)
        } else if chars_eq(s, bsc.as_slice()) {
            Some(ChainTag::Bsc)
        } else if chars_eq(s, base.as_slice()) {
            Some(ChainTag::Base)
        } else if chars_eq(s, robinhood.as_slice()) {
            Some(ChainTag::Robinhood)
        } else {
            None
        }
    }

    pub fn family(&self) -> (f: ChainFamily)
        ensures
            f == tag_family(*self),
    {
        match self {
            ChainTag::Solana => ChainFamily::Solana,
            ChainTag::Bsc | ChainTag::Base | ChainTag::Robinhood => ChainFamily::Evm,
        }
    }

    /// The name `Debug` prints.
    pub fn debug_name(&self) -> (s: &'static str)
        ensures
            s@ == tag_debug_name(*self),
    {
        match self {
            ChainTag::Solana => "Solana",
            ChainTag::Bsc => "Bsc",
            ChainTag::Base => "Base",
            ChainTag::Robinhood => "Robinhood",
        }
    }
}

/// What kind of identity a parsed line is.
#[derive(Debug, Clone, Copy, PartialEq, Eq, Structural)]
pub enum IdentityKind {
    /// Chain given on the line (`solana:<addr>`).
    Explicit(ChainTag),
    /// Bare address; the caller resolves the chain.
    Bare,
}

/// One canonical identity from the input.
#[derive(Debug, Clone, PartialEq, Eq)]
pub struct IdentityRecord {
    pub line_number: usize,
    pub kind: IdentityKind,
    pub address_text: String,
    pub canonical: AddressBytes,
}

/// An address by family and bytes.
pub open spec fn addr_view(a: AddressBytes) -> (ChainFamily, Seq<u8>) {
    match a {
        AddressBytes::Evm(b) => (ChainFamily::Evm, b@),
        AddressBytes::Solana(b) => (ChainFamily::Solana, b@),
    }
}

/// A record as line number, kind, address text and canonical address.
pub open spec fn record_view(r: IdentityRecord) -> (int, IdentityKind, Seq<char>, (ChainFamily, Seq<u8>)) {
    (r.line_number as int, r.kind, r.address_text@, addr_view(r.canonical))
}

/// The result of parsing a whole input.
#[derive(Debug, Clone)]
pub struct ParsedInput {
    pub records: Vec<IdentityRecord>,
    /// Lines whose canonical identity was already seen.
    pub duplicate_count: usize,
}

/// A parse failure, with the 1-based line where it occurred.
#[derive(Debug, PartialEq, Eq)]
pub enum InputError {
    InvalidAddress { line: usize, reason: String },
    UnknownChainTag { line: usize, tag: String },
    ChainConflict { line: usize, line_chain: String, cli_chain: String },
    EmptyInput,
}

/// A parse failure as `(kind, line, first text, second text)`: kind 0 is
/// an invalid address (with its reason), 1 an unknown chain tag (with the
/// tag), 2 a chain conflict (with the line's and the flag's chain), 3 an
/// empty input.
pub open spec fn error_view(e: InputError) -> (int, int, Seq<char>, Seq<char>) {
    match e {
        InputError::InvalidAddress { line, reason } => (0, line as int, reason@, Seq::empty()),
        InputError::UnknownChainTag { line, tag } => (1, line as int, tag@, Seq::empty()),
        InputError::ChainConflict { line, line_chain, cli_chain } => (
            2,
            line as int,
            line_chain@,
            cli_chain@,
        ),
        InputError::EmptyInput => (3, 0, Seq::empty(), Seq::empty()),
    }
}

/// An invalid-address failure.
pub open spec fn invalid(line: int, reason: Seq<char>) -> (int, int, Seq<char>, Seq<char>) {
    (0, line, reason, Seq::empty())
}

/// The text of a failure, as the error's `Display` shows it.
pub open spec fn error_text(e: InputError) -> Seq<char> {
    match e {
        InputError::InvalidAddress { line, reason } => "line "@ + decimal(line as nat)
            + ": invalid address: "@ + reason@,
        InputError::UnknownChainTag { line, tag } => "line "@ + decimal(line as nat)
            + ": unknown chain tag `"@ + tag@ + "`"@,
        InputError::ChainConflict { line, line_chain, cli_chain } => "line "@ + decimal(
            line as nat,
        ) + ": chain conflict: line specifies `"@ + line_chain@ + "`, but --chain is `"@
            + cli_chain@ + "`"@,
        InputError::EmptyInput => "empty input: no identities found"@,
    }
}

impl InputError {
    pub fn to_display_string(&self) -> (s: String)
        ensures
            s@ == error_text(*self),
    {
        match self {
            InputError::InvalidAddress { line, reason } => {
                let s = text_with_number("line ", *line as u128, ": invalid address: ");
                s.concat(reason.as_str())
            },
            InputError::UnknownChainTag { line, tag } => {
                let s = text_with_number("line ", *line as u128, ": unknown chain tag `");
                let s = s.concat(tag.as_str());
                s.concat("`")
            },
            InputError::ChainConflict { line, line_chain, cli_chain } => {
                let s = text_with_number(
                    "line ",
                    *line as u128,
                    ": chain conflict: line specifies `",
                );
                let s = s.concat(line_chain.as_str());
                let s = s.concat("`, but --chain is `");
                let s = s.concat(cli_chain.as_str());
                s.concat("`")
            },
            InputError::EmptyInput => String::from_str("empty input: no identities found"),
        }
    }
}

/// Base58 (Bitcoin alphabet) decoding of a text, as the `bs58` crate
/// gives it; none when the text is not base58.
pub uninterp spec fn base58_decoded(text: Seq<char>) -> Option<Seq<u8>>;

/// Trusted: `bs58::decode(text).into_vec()`, which depends on the text
/// alone; an error becomes `None`, as does any character outside the
/// default (Bitcoin) alphabet. Nothing is claimed of the bytes beyond
/// naming them.
#[verifier::external_body]
fn base58_decode(text: &str) -> (r: Option<Vec<u8>>)
    ensures
        r matches Some(v) ==> base58_decoded(text@) == Some(v@),
        r is None ==> base58_decoded(text@) is None,
        r is Some ==> forall|i: int| 0 <= i < text@.len() ==> is_base58_char(#[trigger] text@[i]),
{
    bs58::decode(text).into_vec().ok()
}

/// Base58 decoding of a character sequence.
fn base58_of(cs: &[char]) -> (r: Option<Vec<u8>>)
    ensures
        r matches Some(v) ==> base58_decoded(cs@) == Some(v@),
        r is None ==> base58_decoded(cs@) is None,
        r is Some ==> forall|i: int| 0 <= i < cs@.len() ==> is_base58_char(#[trigger] cs@[i]),
{
    let s = string_of(cs);
    base58_decode(s.as_str())
}

/// `0x` or `0X` at the start.
pub open spec fn has_hex_prefix(s: Seq<char>) -> bool {
    s.len() >= 2 && s[0] == '0' && (s[1] == 'x' || s[1] == 'X')
}

/// The value of a hexadecimal digit (either case).
pub open spec fn hex_value(c: char) -> Option<u8> {
    if '0' <= c <= '9' {
        Some((c as u32 - '0' as u32) as u8)
    } else if 'a' <= c <= 'f' {
        Some((c as u32 - 'a' as u32 + 10) as u8)
    } else if 'A' <= c <= 'F' {
        Some((c as u32 - 'A' as u32 + 10) as u8)
    } else {
        None
    }
}

/// Bytes of an even-length hexadecimal text, high digit first; none for
/// an odd length or a non-hex character.
pub open spec fn hex_bytes(s: Seq<char>) -> Option<Seq<u8>> {
    if s.len() % 2 == 0 && forall|i: int| 0 <= i < s.len() ==> (#[trigger] hex_value(s[i])) is Some {
        Some(
            Seq::new(
                (s.len() / 2) as nat,
                |i: int| (hex_value(s[2 * i])->0 * 16 + hex_value(s[2 * i + 1])->0) as u8,
            ),
        )
    } else {
        None
    }
}

fn hex_nibble(c: char) -> (r: Option<u8>)
    ensures
        r == hex_value(c),
{
    if '0' <= c && c <= '9' {
        Some((c as u32 - '0' as u32) as u8)
    } else if 'a' <= c && c <= 'f' {
        Some((c as u32 - 'a' as u32 + 10) as u8)
    } else if 'A' <= c && c <= 'F' {
        Some((c as u32 - 'A' as u32 + 10) as u8)
    } else {
        None
    }
}

fn hex_decode(s: &[char]) -> (r: Option<Vec<u8>>)
    ensures
        r matches Some(v) ==> hex_bytes(s@) == Some(v@),
        r is None ==> hex_bytes(s@) is None,
{
    if s.len() % 2 != 0 {
        return None;
    }
    let mut out: Vec<u8> = Vec::new();
    let mut i: usize = 0;
    while i < s.len()
        invariant
            i <= s@.len(),
            i % 2 == 0,
            s@.len() % 2 == 0,
            out@.len() == i / 2,
            forall|j: int| 0 <= j < i ==> (#[trigger] hex_value(s@[j])) is Some,
            forall|k: int|
                0 <= k < out@.len() ==> #[trigger] out@[k] == (hex_value(s@[2 * k])->0 * 16
                    + hex_value(s@[2 * k + 1])->0) as u8,
        decreases s@.len() - i,
    {
        let hi = match hex_nibble(s[i]) {
            Some(v) => v,
            None => return None,
        };
        let lo = match hex_nibble(s[i + 1]) {
            Some(v) => v,
            None => return None,
        };
        assert(hi < 16 && lo < 16);
        out.push(hi * 16 + lo);
        i += 2;
    }
    assert(out@ =~= hex_bytes(s@)->0);
    Some(out)
}

/// Copies 32 bytes into an array.
fn array32_of(bytes: &[u8]) -> (a: [u8; 32])
    requires
        bytes@.len() == 32,
    ensures
        a@ == bytes@,
{
    let mut a = [0u8; 32];
    let mut i: usize = 0;
    while i < 32
        invariant
            bytes@.len() == 32,
            i <= 32,
            a@.len() == 32,
            forall|j: int| 0 <= j < i ==> a@[j] == bytes@[j],
        decreases 32 - i,
    {
        a.set(i, bytes[i]);
        i = i + 1;
    }
    assert(a@ =~= bytes@);
    a
}

/// The canonical address of an address text of a known family.
pub open spec fn canonical_address(a: Seq<char>, family: ChainFamily, line: int) -> Result<
    (ChainFamily, Seq<u8>),
    (int, int, Seq<char>, Seq<char>),
> {
    match family {
        ChainFamily::Evm => if !has_hex_prefix(a) {
            Err(invalid(line, "EVM address must start with 0x"@))
        } else {
            match hex_bytes(a.skip(2)) {
                None => Err(invalid(line, "invalid hex in EVM address"@)),
                Some(b) => if b.len() != 20 {
                    Err(invalid(line, "EVM address must be 20 bytes, got "@ + decimal(b.len())))
                } else {
                    Ok((ChainFamily::Evm, b))
                },
            }
        },
        ChainFamily::Solana => solana_address(base58_decoded(a), line),
    }
}

/// The Solana address of the base58 decoding of an address text: none
/// decoded is invalid base58, and anything but 32 bytes is refused with
/// its length.
pub open spec fn solana_address(decoded: Option<Seq<u8>>, line: int) -> Result<
    (ChainFamily, Seq<u8>),
    (int, int, Seq<char>, Seq<char>),
> {
    match decoded {
        None => Err(invalid(line, "invalid base58 in Solana address"@)),
        Some(b) => if b.len() != 32 {
            Err(invalid(line, "Solana address must be 32 bytes, got "@ + decimal(b.len())))
        } else {
            Ok((ChainFamily::Solana, b))
        },
    }
}

/// The family of a bare address, from its shape: `0x`-hex is EVM, base58
/// is Solana.
pub open spec fn inferred_family(a: Seq<char>, line: int) -> Result<
    ChainFamily,
    (int, int, Seq<char>, Seq<char>),
> {
    if has_hex_prefix(a) {
        Ok(ChainFamily::Evm)
    } else if base58_decoded(a) is Some {
        Ok(ChainFamily::Solana)
    } else {
        Err(invalid(line, "could not infer chain family from address shape"@))
    }
}

/// The chain prefix of a trimmed line: a known tag before the first `:`
/// (conflicting with `--chain` is an error), an unknown one (an error),
/// or none (a bare address).
pub open spec fn chain_prefix(t: Seq<char>, line: int, cli: Option<ChainTag>) -> Result<
    (IdentityKind, Seq<char>),
    (int, int, Seq<char>, Seq<char>),
> {
    let c = first_index(t, ':');
    if c < t.len() {
        let prefix = t.take(c);
        match tag_of_name(prefix) {
            Some(tag) => if cli is Some && cli->0 != tag {
                Err((2, line, prefix, tag_debug_name(cli->0)))
            } else {
                Ok((IdentityKind::Explicit(tag), t.skip(c + 1)))
            },
            None => Err((1, line, prefix, Seq::empty())),
        }
    } else {
        Ok((IdentityKind::Bare, t))
    }
}

/// What one line gives: nothing for a blank or `#` comment line, else its
/// kind, address text and canonical address, or the failure.
pub open spec fn line_result(line: Seq<char>, n: int, cli: Option<ChainTag>) -> Option<
    Result<(IdentityKind, Seq<char>, (ChainFamily, Seq<u8>)), (int, int, Seq<char>, Seq<char>)>,
> {
    let t = trim(line);
    if t.len() == 0 || t[0] == '#' {
        None
    } else {
        Some(
            match chain_prefix(t, n, cli) {
                Err(e) => Err(e),
                Ok((kind, a)) => {
                    let family = match kind {
                        IdentityKind::Explicit(tag) => Ok(tag_family(tag)),
                        IdentityKind::Bare => inferred_family(a, n),
                    };
                    match family {
                        Err(e) => Err(e),
                        Ok(f) => match canonical_address(a, f, n) {
                            Err(e) => Err(e),
                            Ok(c) => Ok((kind, a, c)),
                        },
                    }
                },
            },
        )
    }
}

/// Whether some record already has this canonical address.
pub open spec fn seen_address(
    records: Seq<(int, IdentityKind, Seq<char>, (ChainFamily, Seq<u8>))>,
    c: (ChainFamily, Seq<u8>),
) -> bool {
    exists|i: int| 0 <= i < records.len() && #[trigger] records[i].3 == c
}

/// Parsing lines in order: the records kept (first occurrence of each
/// canonical address) and the number of duplicates, or the first failure.
pub open spec fn lines_state(lines: Seq<Seq<char>>, cli: Option<ChainTag>) -> Result<
    (Seq<(int, IdentityKind, Seq<char>, (ChainFamily, Seq<u8>))>, nat),
    (int, int, Seq<char>, Seq<char>),
>
    decreases lines.len(),
{
    if lines.len() == 0 {
        Ok((Seq::empty(), 0))
    } else {
        match lines_state(lines.drop_last(), cli) {
            Err(e) => Err(e),
            Ok((records, dups)) => {
                let n = lines.len() as int;
                match line_result(lines.last(), n, cli) {
                    None => Ok((records, dups)),
                    Some(Err(e)) => Err(e),
                    Some(Ok((kind, a, c))) => if seen_address(records, c) {
                        Ok((records, dups + 1))
                    } else {
                        Ok((records.push((n, kind, a, c)), dups))
                    },
                }
            },
        }
    }
}

/// The outcome of the `lines` format: no record at all is an explicit
/// failure, never an empty success.
pub open spec fn lines_outcome(lines: Seq<Seq<char>>, cli: Option<ChainTag>) -> Result<
    (Seq<(int, IdentityKind, Seq<char>, (ChainFamily, Seq<u8>))>, nat),
    (int, int, Seq<char>, Seq<char>),
> {
    match lines_state(lines, cli) {
        Err(e) => Err(e),
        Ok((records, dups)) => if records.len() == 0 {
            Err((3, 0, Seq::empty(), Seq::empty()))
        } else {
            Ok((records, dups))
        },
    }
}

/// Whether a parse result is the given outcome.
pub open spec fn parsed_as(
    r: Result<ParsedInput, InputError>,
    s: Result<
        (Seq<(int, IdentityKind, Seq<char>, (ChainFamily, Seq<u8>))>, nat),
        (int, int, Seq<char>, Seq<char>),
    >,
) -> bool {
    match s {
        Ok((records, dups)) => r matches Ok(p) && p.duplicate_count == dups
            && p.records@.map_values(|x: IdentityRecord| record_view(x)) == records,
        Err(e) => r matches Err(x) && error_view(x) == e,
    }
}

/// The same address has the same identity, and only the same address.
pub proof fn lemma_address_identity(x: AddressBytes, y: AddressBytes)
    ensures
        (x.key_id() == y.key_id()) == (addr_view(x) == addr_view(y)),
{
    let f = |b: u8| b as u64;
    if x.key_id() == y.key_id() {
        let (bx, tx): (Seq<u8>, u64) = match x {
            AddressBytes::Evm(b) => (b@, 0u64),
            AddressBytes::Solana(b) => (b@, 1u64),
        };
        let (by, ty): (Seq<u8>, u64) = match y {
            AddressBytes::Evm(b) => (b@, 0u64),
            AddressBytes::Solana(b) => (b@, 1u64),
        };
        assert(x.key_id() == seq![tx] + bx.map_values(f));
        assert(y.key_id() == seq![ty] + by.map_values(f));
        assert(x.key_id()[0] == tx);
        assert(y.key_id()[0] == ty);
        assert(bx.len() == by.len());
        assert forall|i: int| 0 <= i < bx.len() implies bx[i] == by[i] by {
            assert(x.key_id()[i + 1] == bx.map_values(f)[i]);
            assert(y.key_id()[i + 1] == by.map_values(f)[i]);
        }
        assert(bx =~= by);
    }
}

fn split_chain_prefix(t: &[char], n: usize, cli: Option<ChainTag>) -> (r: Result<
    (IdentityKind, usize),
    InputError,
>)
    ensures
        chain_prefix(t@, n as int, cli) matches Ok((k, a)) ==> r matches Ok((k2, start)) && k2 == k
            && start <= t@.len() && t@.skip(start as int) == a,
        chain_prefix(t@, n as int, cli) matches Err(e) ==> r matches Err(x) && error_view(x) == e,
{
    let c = find_char(t, ':');
    if c < t.len() {
        let prefix = copy_range(t, 0, c);
        assert(prefix@ == t@.take(c as int));
        match ChainTag::parse(prefix.as_slice()) {
            Some(tag) => {
                match cli {
                    Some(cl) => {
                        if cl != tag {
                            return Err(
                                InputError::ChainConflict {
                                    line: n,
                                    line_chain: string_of(prefix.as_slice()),
                                    cli_chain: String::from_str(cl.debug_name()),
                                },
                            );
                        }
                    },
                    None => {},
                }
                Ok((IdentityKind::Explicit(tag), c + 1))
            },
            None => Err(
                InputError::UnknownChainTag { line: n, tag: string_of(prefix.as_slice()) },
            ),
        }
    } else {
        assert(t@.skip(0) =~= t@);
        Ok((IdentityKind::Bare, 0))
    }
}

fn has_0x(a: &[char]) -> (b: bool)
    ensures
        b == has_hex_prefix(a@),
{
    a.len() >= 2 && a[0] == '0' && (a[1] == 'x' || a[1] == 'X')
}

fn infer_family_from_shape(a: &[char], n: usize) -> (r: Result<ChainFamily, InputError>)
    ensures
        inferred_family(a@, n as int) matches Ok(f) ==> r == Ok::<ChainFamily, InputError>(f),
        inferred_family(a@, n as int) matches Err(e) ==> r matches Err(x) && error_view(x) == e,
{
    if has_0x(a) {
        Ok(ChainFamily::Evm)
    } else if base58_of(a).is_some() {
        Ok(ChainFamily::Solana)
    } else {
        Err(
            InputError::InvalidAddress {
                line: n,
                reason: String::from_str("could not infer chain family from address shape"),
            },
        )
    }
}

fn canonicalize_address(a: &[char], family: ChainFamily, n: usize) -> (r: Result<
    AddressBytes,
    InputError,
>)
    ensures
        canonical_address(a@, family, n as int) matches Ok(c) ==> r matches Ok(x) && addr_view(x)
            == c,
        canonical_address(a@, family, n as int) matches Err(e) ==> r matches Err(x) && error_view(
            x,
        ) == e,
{
    match family {
        ChainFamily::Evm => {
            if !has_0x(a) {
                return Err(
                    InputError::InvalidAddress {
                        line: n,
                        reason: String::from_str("EVM address must start with 0x"),
                    },
                );
            }
            let hex_part = copy_range(a, 2, a.len());
            assert(hex_part@ == a@.skip(2));
            let bytes = match hex_decode(hex_part.as_slice()) {
                Some(b) => b,
                None => {
                    return Err(
                        InputError::InvalidAddress {
                            line: n,
                            reason: String::from_str("invalid hex in EVM address"),
                        },
                    );
                },
            };
            if bytes.len() != 20 {
                return Err(
                    InputError::InvalidAddress {
                        line: n,
                        reason: {
                            proof {
                                reveal_strlit("");
                            }
                            text_with_number(
                                "EVM address must be 20 bytes, got ",
                                bytes.len() as u128,
                                "",
                            )
                        },
                    },
                );
            }
            let arr = array20_at(bytes.as_slice(), 0);
            assert(arr@ =~= bytes@);
            Ok(AddressBytes::Evm(arr))
        },
        ChainFamily::Solana => solana_address_from_decoded(base58_of(a), n),
    }
}

/// The bytes held, if any.
pub open spec fn bytes_of(o: Option<Vec<u8>>) -> Option<Seq<u8>> {
    match o {
        Some(v) => Some(v@),
        None => None,
    }
}

/// The Solana address of what base58 decoding of an address text gave,
/// reported at line `n`: exactly `solana_address`.
pub fn solana_address_from_decoded(decoded: Option<Vec<u8>>, n: usize) -> (r: Result<
    AddressBytes,
    InputError,
>)
    ensures
        solana_address(bytes_of(decoded), n as int) matches Ok(c) ==> r matches Ok(x)
            && addr_view(x) == c,
        solana_address(bytes_of(decoded), n as int) matches Err(e) ==> r matches Err(x)
            && error_view(x) == e,
{
    let bytes = match decoded {
        Some(b) => b,
        None => {
            return Err(
                InputError::InvalidAddress {
                    line: n,
                    reason: String::from_str("invalid base58 in Solana address"),
                },
            );
        },
    };
    if bytes.len() != 32 {
        return Err(
            InputError::InvalidAddress {
                line: n,
                reason: {
                    proof {
                        reveal_strlit("");
                    }
                    text_with_number("Solana address must be 32 bytes, got ", bytes.len() as u128, "")
                },
            },
        );
    }
    let arr = array32_of(bytes.as_slice());
    Ok(AddressBytes::Solana(arr))
}

fn parse_line(line: &[char], n: usize, cli: Option<ChainTag>) -> (r: Option<
    Result<(IdentityKind, Vec<char>, AddressBytes), InputError>,
>)
    ensures
        line_result(line@, n as int, cli) is None ==> r is None,
        line_result(line@, n as int, cli) matches Some(Err(e)) ==> r matches Some(Err(x))
            && error_view(x) == e,
        line_result(line@, n as int, cli) matches Some(Ok((k, a, c))) ==> r matches Some(
            Ok((k2, a2, c2)),
        ) && k2 == k && a2@ == a && addr_view(c2) == c,
{
    let (lo, hi) = trim_bounds(line);
    let t = copy_range(line, lo, hi);
    if t.len() == 0 || t[0] == '#' {
        return None;
    }
    let (kind, start) = match split_chain_prefix(t.as_slice(), n, cli) {
        Ok(p) => p,
        Err(e) => return Some(Err(e)),
    };
    let a = copy_range(t.as_slice(), start, t.len());
    assert(a@ == t@.skip(start as int));
    let family = match kind {
        IdentityKind::Explicit(tag) => tag.family(),
        IdentityKind::Bare => match infer_family_from_shape(a.as_slice(), n) {
            Ok(f) => f,
            Err(e) => return Some(Err(e)),
        },
    };
    match canonicalize_address(a.as_slice(), family, n) {
        Ok(c) => Some(Ok((kind, a, c))),
        Err(e) => Some(Err(e)),
    }
}

/// The character views of a sequence of character vectors.
pub open spec fn char_views(v: Seq<Vec<char>>) -> Seq<Seq<char>> {
    v.map_values(|x: Vec<char>| x@)
}

proof fn lemma_failure_persists(lines: Seq<Seq<char>>, cli: Option<ChainTag>, k: int)
    requires
        0 <= k <= lines.len(),
        lines_state(lines.take(k), cli) is Err,
    ensures
        lines_state(lines, cli) == lines_state(lines.take(k), cli),
    decreases lines.len() - k,
{
    if k == lines.len() {
        assert(lines.take(k) =~= lines);
    } else {
        assert(lines.take(k + 1).drop_last() =~= lines.take(k));
        lemma_failure_persists(lines, cli, k + 1);
    }
}

/// Parses lines already split, in order.
fn parse_line_list(lines: &Vec<Vec<char>>, cli: Option<ChainTag>) -> (r: Result<
    ParsedInput,
    InputError,
>)
    ensures
        parsed_as(r, lines_outcome(char_views(lines@), cli)),
{
    let ghost ls = char_views(lines@);
    let ghost rv = |x: IdentityRecord| record_view(x);
    let mut records: Vec<IdentityRecord> = Vec::new();
    let mut seen: SortedMap<AddressBytes, usize> = SortedMap::new();
    let mut duplicate_count: usize = 0;
    let mut i: usize = 0;
    assert(records@.map_values(rv) =~= Seq::empty());
    assert(ls.take(0) =~= Seq::<Seq<char>>::empty());
    while i < lines.len()
        invariant
            i <= lines@.len(),
            ls == char_views(lines@),
            rv == (|x: IdentityRecord| record_view(x)),
            duplicate_count <= i,
            lines_state(ls.take(i as int), cli) == Ok::<
                (Seq<(int, IdentityKind, Seq<char>, (ChainFamily, Seq<u8>))>, nat),
                (int, int, Seq<char>, Seq<char>),
            >((records@.map_values(rv), duplicate_count as nat)),
            forall|id: Seq<u64>|
                (#[trigger] lookup(seen.pairs(), id) is Some) == (exists|j: int|
                    0 <= j < records@.len() && #[trigger] records@[j].canonical.key_id() == id),
        decreases lines@.len() - i,
    {
        let n = i + 1;
        let ghost prev = ls.take(i as int);
        proof {
            assert(ls.take(i + 1).drop_last() =~= prev);
            assert(ls.take(i + 1).last() == lines@[i as int]@);
        }
        let ghost lr = line_result(lines@[i as int]@, n as int, cli);
        let ghost state = lines_state(prev, cli);
        assert(lines_state(ls.take(i + 1), cli) == match state {
            Err(e) => Err(e),
            Ok((records, dups)) => match lr {
                None => Ok((records, dups)),
                Some(Err(e)) => Err(e),
                Some(Ok((kind, a, c))) => if seen_address(records, c) {
                    Ok((records, dups + 1))
                } else {
                    Ok((records.push((n as int, kind, a, c)), dups))
                },
            },
        });
        match parse_line(lines[i].as_slice(), n, cli) {
            None => {
                assert(lines_state(ls.take(i + 1), cli) == Ok::<
                    (Seq<(int, IdentityKind, Seq<char>, (ChainFamily, Seq<u8>))>, nat),
                    (int, int, Seq<char>, Seq<char>),
                >((records@.map_values(rv), duplicate_count as nat)));
            },
            Some(Err(e)) => {
                proof {
                    lemma_failure_persists(ls, cli, i + 1);
                }
                return Err(e);
            },
            Some(Ok((kind, a, canonical))) => {
                let ghost before = records@;
                let ghost c = addr_view(canonical);
                proof {
                    let rs = before.map_values(rv);
                    let cid = canonical.key_id();
                    assert((lookup(seen.pairs(), cid) is Some) == (exists|j: int|
                        0 <= j < records@.len() && #[trigger] records@[j].canonical.key_id() == cid));
                    assert(seen_address(rs, c) == (lookup(seen.pairs(), cid) is Some)) by {
                        if seen_address(rs, c) {
                            let j = choose|j: int| 0 <= j < rs.len() && #[trigger] rs[j].3 == c;
                            assert(rs[j] == rv(before[j]));
                            lemma_address_identity(before[j].canonical, canonical);
                            assert(records@[j].canonical.key_id() == cid);
                        }
                        if lookup(seen.pairs(), canonical.key_id()) is Some {
                            let j = choose|j: int|
                                0 <= j < before.len() && #[trigger] before[j].canonical.key_id()
                                    == canonical.key_id();
                            assert(records@[j].canonical.key_id() == cid);
                            lemma_address_identity(before[j].canonical, canonical);
                            assert(rs[j] == rv(before[j]));
                            assert(rs[j].3 == c);
                        }
                    }
                }
                if seen.contains_key(&canonical) {
                    duplicate_count += 1;
                    assert(lines_state(ls.take(i + 1), cli) == Ok::<
                        (Seq<(int, IdentityKind, Seq<char>, (ChainFamily, Seq<u8>))>, nat),
                        (int, int, Seq<char>, Seq<char>),
                    >((records@.map_values(rv), duplicate_count as nat)));
                } else {
                    let entries = seen.entries();
                    let ghost old_pairs = seen.pairs();
                    seen.insert(canonical.clone(), n);
                    let record = IdentityRecord {
                        line_number: n,
                        kind,
                        address_text: string_of(a.as_slice()),
                        canonical,
                    };
                    records.push(record);
                    proof {
                        assert(records@.map_values(rv) =~= before.map_values(rv).push(rv(record)));
                        assert(rv(record) == (n as int, kind, a@, c));
                        assert(lines_state(ls.take(i + 1), cli) == Ok::<
                            (Seq<(int, IdentityKind, Seq<char>, (ChainFamily, Seq<u8>))>, nat),
                            (int, int, Seq<char>, Seq<char>),
                        >((records@.map_values(rv), duplicate_count as nat)));
                        assert forall|id: Seq<u64>|
                            (#[trigger] lookup(seen.pairs(), id) is Some) == (exists|j: int|
                                0 <= j < records@.len() && #[trigger] records@[j].canonical.key_id()
                                    == id) by {
                            law_lookup_after_insert(old_pairs, canonical, n, id);
                            if id == canonical.key_id() {
                                assert(records@[before.len() as int].canonical.key_id() == id);
                            } else {
                                if exists|j: int|
                                    0 <= j < records@.len()
                                        && #[trigger] records@[j].canonical.key_id() == id {
                                    let j = choose|j: int|
                                        0 <= j < records@.len()
                                            && #[trigger] records@[j].canonical.key_id() == id;
                                    assert(j < before.len());
                                    assert(before[j].canonical.key_id() == id);
                                }
                                if exists|j: int|
                                    0 <= j < before.len() && #[trigger] before[j].canonical.key_id()
                                        == id {
                                    let j = choose|j: int|
                                        0 <= j < before.len()
                                            && #[trigger] before[j].canonical.key_id() == id;
                                    assert(records@[j] == before[j]);
                                }
                            }
                        }
                    }
                }
            },
        }
        i += 1;
    }
    assert(ls.take(i as int) =~= ls);
    if records.len() == 0 {
        return Err(InputError::EmptyInput);
    }
    Ok(ParsedInput { records, duplicate_count })
}

/// A failure in reading lines names one of those lines.
pub proof fn lemma_failure_line(lines: Seq<Seq<char>>, cli: Option<ChainTag>)
    ensures
        lines_state(lines, cli) matches Err(e) ==> 1 <= e.1 <= lines.len() && e.0 != 3,
    decreases lines.len(),
{
    if lines.len() > 0 {
        lemma_failure_line(lines.drop_last(), cli);
    }
}

/// The `lines` format: one `chain:address` or bare address per line;
/// blank lines and `#` comments are skipped; a chain tag that conflicts
/// with `--chain` is an error, never a silent override; the first line
/// with a given canonical address is kept and later ones are counted as
/// duplicates; no identity at all is an explicit `EmptyInput`.
pub fn parse_lines(text: &str, cli_chain: Option<ChainTag>) -> (r: Result<ParsedInput, InputError>)
    ensures
        parsed_as(r, lines_outcome(text_lines(text@), cli_chain)),
{
    let cs = chars_of(text);
    let lines = split_lines(cs.as_slice());
    assert(char_views(lines@) =~= text_lines(text@));
    parse_line_list(&lines, cli_chain)
}

/// A CSV data row as the equivalent `chain:address` line.
pub open spec fn csv_line(row: Seq<char>) -> Seq<char> {
    let c = first_index(row, ',');
    strip_cr(row.take(c) + seq![':'] + row.skip(c + 1))
}

/// The `chain:address` lines of the non-blank CSV data rows, in order.
pub open spec fn csv_lines(rows: Seq<Seq<char>>) -> Seq<Seq<char>>
    decreases rows.len(),
{
    if rows.len() == 0 {
        Seq::empty()
    } else if trim(rows.last()).len() == 0 {
        csv_lines(rows.drop_last())
    } else {
        csv_lines(rows.drop_last()).push(csv_line(rows.last()))
    }
}

/// The CSV line of each non-blank data row, in order: the data rows
/// follow the header, which is line 1, and blank rows count.
pub open spec fn csv_row_numbers(rows: Seq<Seq<char>>) -> Seq<int>
    decreases rows.len(),
{
    if rows.len() == 0 {
        Seq::empty()
    } else if trim(rows.last()).len() == 0 {
        csv_row_numbers(rows.drop_last())
    } else {
        csv_row_numbers(rows.drop_last()).push(rows.len() as int + 1)
    }
}

/// A non-blank CSV row without a comma.
pub open spec fn csv_row_malformed(row: Seq<char>) -> bool {
    trim(row).len() > 0 && first_index(row, ',') >= row.len()
}

/// The index of the first comma-less row of `ls` at `from` or later.
pub open spec fn first_malformed(ls: Seq<Seq<char>>, from: int) -> Option<int>
    decreases ls.len() - from,
{
    if from < 0 || from >= ls.len() {
        None
    } else if csv_row_malformed(ls[from]) {
        Some(from)
    } else {
        first_malformed(ls, from + 1)
    }
}

/// With no comma-less row from `from` on, there is none to report.
pub proof fn lemma_first_malformed_none(ls: Seq<Seq<char>>, from: int)
    requires
        0 <= from,
        forall|j: int| from <= j < ls.len() ==> !csv_row_malformed(#[trigger] ls[j]),
    ensures
        first_malformed(ls, from) is None,
    decreases ls.len() - from,
{
    if from < ls.len() {
        lemma_first_malformed_none(ls, from + 1);
    }
}

/// A failure one line further down: a line of the rows after the header.
pub open spec fn shifted(e: (int, int, Seq<char>, Seq<char>)) -> (int, int, Seq<char>, Seq<char>) {
    if e.0 == 3 {
        e
    } else {
        (e.0, e.1 + 1, e.2, e.3)
    }
}

/// A failure in the lines read from the non-blank CSV rows, moved to the
/// CSV line of the row it came from.
pub open spec fn at_csv_line(e: (int, int, Seq<char>, Seq<char>), numbers: Seq<int>) -> (
    int,
    int,
    Seq<char>,
    Seq<char>,
) {
    if e.0 == 3 {
        e
    } else {
        (e.0, numbers[e.1 - 1], e.2, e.3)
    }
}

/// The outcome of the `csv` format: a `chain,address` header, then rows
/// read as `chain:address` lines. Every failure names its CSV line, the
/// header being line 1 and blank rows counted; a row without a comma is
/// reported before any other row is read.
pub open spec fn csv_outcome(text: Seq<char>, cli: Option<ChainTag>) -> Result<
    (Seq<(int, IdentityKind, Seq<char>, (ChainFamily, Seq<u8>))>, nat),
    (int, int, Seq<char>, Seq<char>),
> {
    let ls = text_lines(text);
    if ls.len() == 0 || trim(ls[0]) != "chain,address"@ {
        Err(invalid(1, "CSV must start with header `chain,address`"@))
    } else {
        match first_malformed(ls, 1) {
            Some(i) => Err(invalid(i + 1, "CSV row must be `chain,address`"@)),
            None => match lines_outcome(csv_lines(ls.skip(1)), cli) {
                Err(e) => Err(at_csv_line(e, csv_row_numbers(ls.skip(1)))),
                Ok(x) => Ok(x),
            },
        }
    }
}

fn shift_csv_line_number(err: InputError, numbers: &Vec<usize>) -> (r: InputError)
    requires
        error_view(err).0 != 3 ==> 1 <= error_view(err).1 <= numbers@.len(),
    ensures
        error_view(r) == at_csv_line(
            error_view(err),
            numbers@.map_values(|n: usize| n as int),
        ),
{
    match err {
        InputError::InvalidAddress { line, reason } => InputError::InvalidAddress {
            line: numbers[line - 1],
            reason,
        },
        InputError::UnknownChainTag { line, tag } => InputError::UnknownChainTag {
            line: numbers[line - 1],
            tag,
        },
        InputError::ChainConflict { line, line_chain, cli_chain } => InputError::ChainConflict {
            line: numbers[line - 1],
            line_chain,
            cli_chain,
        },
        InputError::EmptyInput => InputError::EmptyInput,
    }
}

/// The `csv` format: header `chain,address`, then one `chain,address` row
/// per identity, read as the `lines` format would read `chain:address`.
/// Failures report the CSV line number, the header being line 1.
pub fn parse_csv(text: &str, cli_chain: Option<ChainTag>) -> (r: Result<ParsedInput, InputError>)
    ensures
        parsed_as(r, csv_outcome(text@, cli_chain)),
{
    let cs = chars_of(text);
    let lines = split_lines(cs.as_slice());
    let ghost ls = text_lines(text@);
    assert(char_views(lines@) =~= ls);
    proof {
        reveal_strlit("chain,address");
        reveal_strlit(":");
    }
    let header_ok = if lines.len() == 0 {
        false
    } else {
        let (lo, hi) = trim_bounds(lines[0].as_slice());
        let h = copy_range(lines[0].as_slice(), lo, hi);
        let expected = chars_of("chain,address");
        assert(ls[0] == lines@[0]@);
        assert(h@ == trim(ls[0]));
        chars_eq(h.as_slice(), expected.as_slice())
    };
    assert(header_ok == (ls.len() > 0 && trim(ls[0]) == "chain,address"@));
    if !header_ok {
        return Err(
            InputError::InvalidAddress {
                line: 1,
                reason: String::from_str("CSV must start with header `chain,address`"),
            },
        );
    }
    let ghost rows = ls.skip(1);
    let mut row_lines: Vec<Vec<char>> = Vec::new();
    let mut numbers: Vec<usize> = Vec::new();
    let mut i: usize = 1;
    while i < lines.len()
        invariant
            1 <= i <= lines@.len(),
            ls == char_views(lines@),
            ls == text_lines(text@),
            trim(ls[0]) == "chain,address"@,
            rows == ls.skip(1),
            forall|j: int| 1 <= j < i ==> !csv_row_malformed(#[trigger] ls[j]),
            char_views(row_lines@) == csv_lines(rows.take(i - 1)),
            numbers@.map_values(|n: usize| n as int) == csv_row_numbers(rows.take(i - 1)),
            numbers@.len() == row_lines@.len(),
            row_lines@.len() <= i - 1,
        decreases lines@.len() - i,
    {
        let row = lines[i].as_slice();
        proof {
            assert(rows.take(i as int).drop_last() =~= rows.take(i - 1));
            assert(rows.take(i as int).last() == row@);
        }
        let (lo, hi) = trim_bounds(row);
        if lo == hi {
            assert(char_views(row_lines@) == csv_lines(rows.take(i as int)));
            assert(numbers@.map_values(|n: usize| n as int) == csv_row_numbers(rows.take(i as int)));
        } else {
            let c = find_char(row, ',');
            if c == row.len() {
                assert(row@ == ls[i as int]);
                assert(trim(row@).len() > 0);
                assert(csv_row_malformed(ls[i as int]));
                proof {
                    lemma_first_malformed_at(ls, 1, i as int);
                }
                return Err(
                    InputError::InvalidAddress {
                        line: i + 1,
                        reason: String::from_str("CSV row must be `chain,address`"),
                    },
                );
            }
            let mut line = copy_range(row, 0, c);
            line.push(':');
            let rest = copy_range(row, c + 1, row.len());
            let mut k: usize = 0;
            while k < rest.len()
                invariant
                    k <= rest@.len(),
                    line@ == row@.take(c as int) + seq![':'] + rest@.take(k as int),
                decreases rest@.len() - k,
            {
                line.push(rest[k]);
                assert(rest@.take(k + 1) =~= rest@.take(k as int).push(rest@[k as int]));
                k += 1;
            }
            assert(rest@.take(k as int) =~= row@.skip(c + 1));
            if line.len() > 0 && line[line.len() - 1] == '\r' {
                line.pop();
            }
            let ghost before = row_lines@;
            row_lines.push(line);
            assert(char_views(row_lines@) =~= char_views(before).push(line@));
            let ghost before_numbers = numbers@;
            numbers.push(i + 1);
            assert(numbers@.map_values(|n: usize| n as int) =~= before_numbers.map_values(
                |n: usize| n as int,
            ).push(i + 1));
        }
        i += 1;
    }
    assert(rows.take(i - 1) =~= rows);
    proof {
        lemma_first_malformed_none(ls, 1);
    }
    match parse_line_list(&row_lines, cli_chain) {
        Ok(p) => Ok(p),
        Err(e) => {
            proof {
                lemma_failure_line(char_views(row_lines@), cli_chain);
            }
            Err(shift_csv_line_number(e, &numbers))
        },
    }
}

/// The first comma-less row from `from` on is the one at `i` when no row
/// between them lacks a comma.
proof fn lemma_first_malformed_at(ls: Seq<Seq<char>>, from: int, i: int)
    requires
        0 <= from <= i < ls.len(),
        csv_row_malformed(ls[i]),
        forall|j: int| from <= j < i ==> !csv_row_malformed(#[trigger] ls[j]),
    ensures
        first_malformed(ls, from) == Some(i),
    decreases i - from,
{
    if from < i {
        lemma_first_malformed_at(ls, from + 1, i);
    }
}

/// The `jsonl` format reads earlier tool output records, not raw
/// addresses; it is not available as an input yet.
pub fn parse_jsonl(text: &str, cli_chain: Option<ChainTag>) -> (r: Result<ParsedInput, InputError>)
    ensures
        r matches Err(InputError::InvalidAddress { line, reason }) && line == 0 && reason@
            == "jsonl input format not yet implemented"@,
{
    Err(
        InputError::InvalidAddress {
            line: 0,
            reason: String::from_str("jsonl input format not yet implemented"),
        },
    )
}

/// Parses an input in the given format; `Auto` reads as `lines`.
pub fn parse_input(text: &str, format: InputFormat, cli_chain: Option<ChainTag>) -> (r: Result<
    ParsedInput,
    InputError,
>)
    ensures
        (format is Lines || format is Auto) ==> parsed_as(
            r,
            lines_outcome(text_lines(text@), cli_chain),
        ),
        format is Csv ==> parsed_as(r, csv_outcome(text@, cli_chain)),
        format is Jsonl ==> parsed_as(
            r,
            Err(invalid(0, "jsonl input format not yet implemented"@)),
        ),
{
    match format {
        InputFormat::Lines | InputFormat::Auto => parse_lines(text, cli_chain),
        InputFormat::Csv => parse_csv(text, cli_chain),
        InputFormat::Jsonl => parse_jsonl(text, cli_chain),
    }
}

/// The enabled EVM chains, in order.
pub open spec fn evm_chains(enabled: Seq<ChainKey>) -> Seq<ChainKey> {
    enabled.filter(|c: ChainKey| c.family == ChainFamily::Evm)
}

/// Resolves a bare address's chain against the enabled chains, without
/// any live data: no EVM chain is not-found, exactly one resolves, and
/// more than one is ambiguous with every candidate listed. Never picks
/// the first responder.
pub fn resolve_chain(address: &AddressBytes, enabled_chains: &[ChainKey]) -> (r: ChainResolution)
    ensures
        evm_chains(enabled_chains@).len() == 0 ==> r is NotFoundOrUnobserved,
        evm_chains(enabled_chains@).len() == 1 ==> r == ChainResolution::Resolved(
            evm_chains(enabled_chains@)[0],
        ),
        evm_chains(enabled_chains@).len() > 1 ==> (r matches ChainResolution::Ambiguous(v) && v@
            == evm_chains(enabled_chains@)),
{
    let ghost pred = |c: ChainKey| c.family == ChainFamily::Evm;
    let mut candidates: Vec<ChainKey> = Vec::new();
    let mut i: usize = 0;
    while i < enabled_chains.len()
        invariant
            i <= enabled_chains@.len(),
            pred == (|c: ChainKey| c.family == ChainFamily::Evm),
            candidates@ == enabled_chains@.take(i as int).filter(pred),
        decreases enabled_chains@.len() - i,
    {
        let c = &enabled_chains[i];
        proof {
            assert(enabled_chains@.take(i + 1) =~= enabled_chains@.take(i as int).push(*c));
            enabled_chains@.take(i as int).lemma_filter_push(*c, pred);
        }
        match c.family {
            ChainFamily::Evm => candidates.push(c.clone()),
            ChainFamily::Solana => {},
        }
        i += 1;
    }
    assert(enabled_chains@.take(i as int) =~= enabled_chains@);
    if candidates.len() == 0 {
        ChainResolution::NotFoundOrUnobserved
    } else if candidates.len() == 1 {
        ChainResolution::Resolved(candidates[0].clone())
    } else {
        ChainResolution::Ambiguous(candidates)
    }
}

} // verus!
