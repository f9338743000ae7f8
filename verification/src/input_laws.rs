//! Properties of input parsing that hold for every input text.

use vstd::prelude::*;

use crate::identity::ChainFamily;
use crate::chars::{
    first_index, lemma_first_index, leading_space, line_scan, strip_cr, text_lines, trailing_space,
    trim,
};
use crate::input::{
    at_csv_line, canonical_address, csv_lines, hex_bytes, hex_value, csv_outcome, csv_row_malformed, csv_row_numbers, first_malformed,
    lemma_failure_line, lemma_first_malformed_none, line_result, lines_outcome, lines_state,
    seen_address, shifted, tag_of_name, ChainTag, IdentityKind,
};
use crate::text::{digit_char, hex_char, hex_lower_spec, is_white_space};

verus! {

/// Number of lines that name an identity (neither blank, nor a comment,
/// nor a failure).
pub open spec fn identity_lines(lines: Seq<Seq<char>>, cli: Option<ChainTag>) -> nat
    decreases lines.len(),
{
    if lines.len() == 0 {
        0
    } else {
        identity_lines(lines.drop_last(), cli) + if line_result(
            lines.last(),
            lines.len() as int,
            cli,
        ) matches Some(Ok(_)) {
            1nat
        } else {
            0nat
        }
    }
}

/// The records of a successful parse: no canonical address twice, line
/// numbers strictly increasing, every address of its family's length, and
/// a chain tag on a record never conflicting with `--chain`. Every line
/// naming an identity is either a record or a counted duplicate.
pub proof fn law_parsed_records_are_canonical_and_accounted(
    lines: Seq<Seq<char>>,
    cli: Option<ChainTag>,
)
    ensures
        lines_state(lines, cli) matches Ok((records, dups)) ==> {
            &&& forall|i: int, j: int|
                0 <= i < j < records.len() ==> #[trigger] records[i].3 != #[trigger] records[j].3
                    && records[i].0 < records[j].0
            &&& forall|i: int|
                0 <= i < records.len() ==> 1 <= #[trigger] records[i].0 <= lines.len()
            &&& forall|i: int|
                0 <= i < records.len() ==> (#[trigger] records[i].3).0 == ChainFamily::Evm
                    ==> records[i].3.1.len() == 20
            &&& forall|i: int|
                0 <= i < records.len() ==> (#[trigger] records[i].3).0 == ChainFamily::Solana
                    ==> records[i].3.1.len() == 32
            &&& forall|i: int|
                0 <= i < records.len() && (#[trigger] records[i].1) is Explicit && cli is Some
                    ==> records[i].1->0 == cli->0
            &&& records.len() + dups == identity_lines(lines, cli)
        },
    decreases lines.len(),
{
    if lines.len() > 0 {
        let rest = lines.drop_last();
        law_parsed_records_are_canonical_and_accounted(rest, cli);
        match lines_state(rest, cli) {
            Err(_) => {},
            Ok((records, dups)) => {
                let n = lines.len() as int;
                let lr = line_result(lines.last(), n, cli);
                assert(identity_lines(lines, cli) == identity_lines(rest, cli) + if lr matches Some(
                    Ok(_),
                ) {
                    1nat
                } else {
                    0nat
                });
                match lr {
                    Some(Ok((kind, a, c))) => {
                        if !seen_address(records, c) {
                            let nr = records.push((n, kind, a, c));
                            assert(lines_state(lines, cli) == Ok::<
                                (Seq<(int, IdentityKind, Seq<char>, (ChainFamily, Seq<u8>))>, nat),
                                (int, int, Seq<char>, Seq<char>),
                            >((nr, dups)));
                            assert forall|i: int, j: int|
                                0 <= i < j < nr.len() implies #[trigger] nr[i].3 != #[trigger] nr[j].3
                                && nr[i].0 < nr[j].0 by {
                                if j == records.len() {
                                    assert(nr[i] == records[i]);
                                    assert(nr[j] == (n, kind, a, c));
                                    assert(1 <= records[i].0 <= rest.len());
                                    if nr[i].3 == c {
                                        assert(records[i].3 == c);
                                        assert(seen_address(records, c));
                                    }
                                } else {
                                    assert(nr[i] == records[i]);
                                    assert(nr[j] == records[j]);
                                    assert(records[i].3 != records[j].3);
                                    assert(records[i].0 < records[j].0);
                                }
                            }
                            assert forall|i: int| 0 <= i < nr.len() implies 1 <= #[trigger] nr[i].0
                                <= lines.len() by {
                                if i < records.len() {
                                    assert(nr[i] == records[i]);
                                }
                            }
                            assert forall|i: int|
                                0 <= i < nr.len() implies ((#[trigger] nr[i].3).0 == ChainFamily::Evm
                                ==> nr[i].3.1.len() == 20) && (nr[i].3.0 == ChainFamily::Solana
                                ==> nr[i].3.1.len() == 32) by {
                                if i < records.len() {
                                    assert(nr[i] == records[i]);
                                }
                            }
                            assert forall|i: int|
                                0 <= i < nr.len() && (#[trigger] nr[i].1) is Explicit && cli is Some
                                    implies nr[i].1->0 == cli->0 by {
                                if i < records.len() {
                                    assert(nr[i] == records[i]);
                                }
                            }
                        } else {
                            assert(lines_state(lines, cli) == Ok::<
                                (Seq<(int, IdentityKind, Seq<char>, (ChainFamily, Seq<u8>))>, nat),
                                (int, int, Seq<char>, Seq<char>),
                            >((records, dups + 1)));
                        }
                    },
                    _ => {},
                }
            },
        }
    }
}

/// Lines joined into a text, each ended by `\n`.
pub open spec fn joined_lines(lines: Seq<Seq<char>>) -> Seq<char>
    decreases lines.len(),
{
    if lines.len() == 0 {
        Seq::empty()
    } else {
        joined_lines(lines.drop_last()) + lines.last() + seq!['\n']
    }
}

/// The `lines` text of `(chain, address)` pairs: `chain:address` per line.
pub open spec fn pairs_as_lines(rows: Seq<(Seq<char>, Seq<char>)>) -> Seq<char> {
    joined_lines(rows.map_values(|r: (Seq<char>, Seq<char>)| r.0 + seq![':'] + r.1))
}

/// The `csv` text of `(chain, address)` pairs: the header, then
/// `chain,address` per line.
pub open spec fn pairs_as_csv(rows: Seq<(Seq<char>, Seq<char>)>) -> Seq<char> {
    joined_lines(
        seq!["chain,address"@] + rows.map_values(
            |r: (Seq<char>, Seq<char>)| r.0 + seq![','] + r.1,
        ),
    )
}

/// No line break or carriage return in a text.
pub open spec fn single_line(s: Seq<char>) -> bool {
    forall|i: int| 0 <= i < s.len() ==> #[trigger] s[i] != '\n' && s[i] != '\r'
}

proof fn lemma_scan_plain(s: Seq<char>, seg: Seq<char>)
    requires
        forall|i: int| 0 <= i < seg.len() ==> #[trigger] seg[i] != '\n',
    ensures
        line_scan(s + seg) == (line_scan(s).0, line_scan(s).1 + seg),
    decreases seg.len(),
{
    if seg.len() == 0 {
        assert(s + seg =~= s);
        assert(line_scan(s).1 + seg =~= line_scan(s).1);
    } else {
        let t = s + seg;
        assert(t.drop_last() =~= s + seg.drop_last());
        lemma_scan_plain(s, seg.drop_last());
        assert(t.last() == seg.last());
        assert((line_scan(s).1 + seg.drop_last()).push(seg.last()) =~= line_scan(s).1 + seg);
    }
}

proof fn lemma_scan_joined(lines: Seq<Seq<char>>)
    requires
        forall|i: int| 0 <= i < lines.len() ==> single_line(#[trigger] lines[i]),
    ensures
        line_scan(joined_lines(lines)) == (
            lines.map_values(|l: Seq<char>| strip_cr(l)),
            Seq::<char>::empty(),
        ),
    decreases lines.len(),
{
    if lines.len() == 0 {
        assert(lines.map_values(|l: Seq<char>| strip_cr(l)) =~= Seq::<Seq<char>>::empty());
    } else {
        let rest = lines.drop_last();
        let last = lines.last();
        assert forall|i: int| 0 <= i < rest.len() implies single_line(#[trigger] rest[i]) by {
            assert(rest[i] == lines[i]);
        }
        lemma_scan_joined(rest);
        let pre = joined_lines(rest);
        assert(single_line(lines[lines.len() - 1]));
        lemma_scan_plain(pre, last);
        let t = pre + last + seq!['\n'];
        assert(t.drop_last() =~= pre + last);
        assert(Seq::<char>::empty() + last =~= last);
        assert(lines.map_values(|l: Seq<char>| strip_cr(l)) =~= rest.map_values(
            |l: Seq<char>| strip_cr(l),
        ).push(strip_cr(last)));
    }
}

proof fn lemma_plain_not_stripped(l: Seq<char>)
    requires
        l.len() > 0 ==> l.last() != '\r',
    ensures
        strip_cr(l) == l,
{
}

proof fn lemma_nonblank_trim(s: Seq<char>, k: int)
    requires
        0 <= k < s.len(),
        !is_white_space(s[k]),
    ensures
        trim(s).len() > 0,
{
    let a = leading_space(s);
    lemma_leading_space_bound(s, k);
    let t = s.skip(a as int);
    assert(!is_white_space(t[0])) by {
        lemma_leading_space_stops(s);
    }
    lemma_trailing_space_bound(t);
}

proof fn lemma_leading_space_bound(s: Seq<char>, k: int)
    requires
        0 <= k < s.len(),
        !is_white_space(s[k]),
    ensures
        leading_space(s) <= k,
    decreases k,
{
    if k > 0 && is_white_space(s[0]) {
        assert(s.drop_first()[k - 1] == s[k]);
        lemma_leading_space_bound(s.drop_first(), k - 1);
    }
}

proof fn lemma_leading_space_stops(s: Seq<char>)
    requires
        leading_space(s) < s.len(),
    ensures
        !is_white_space(s[leading_space(s) as int]),
    decreases s.len(),
{
    if s.len() > 0 && is_white_space(s[0]) {
        lemma_leading_space_stops(s.drop_first());
        assert(s.drop_first()[leading_space(s.drop_first()) as int] == s[leading_space(s) as int]);
    }
}

proof fn lemma_trailing_space_bound(t: Seq<char>)
    requires
        t.len() > 0,
        !is_white_space(t[0]),
    ensures
        trailing_space(t) < t.len(),
    decreases t.len(),
{
    if t.len() > 1 && is_white_space(t.last()) {
        assert(t.drop_last()[0] == t[0]);
        lemma_trailing_space_bound(t.drop_last());
    }
}

#[verifier::spinoff_prover]
proof fn lemma_csv_lines_of_rows(rows: Seq<(Seq<char>, Seq<char>)>)
    requires
        forall|i: int|
            0 <= i < rows.len() ==> single_line(#[trigger] rows[i].0) && single_line(rows[i].1)
                && first_index(rows[i].0, ',') == rows[i].0.len(),
    ensures
        csv_lines(rows.map_values(|r: (Seq<char>, Seq<char>)| r.0 + seq![','] + r.1))
            == rows.map_values(|r: (Seq<char>, Seq<char>)| r.0 + seq![':'] + r.1),
    decreases rows.len(),
{
    let comma = |r: (Seq<char>, Seq<char>)| r.0 + seq![','] + r.1;
    let colon = |r: (Seq<char>, Seq<char>)| r.0 + seq![':'] + r.1;
    if rows.len() == 0 {
        assert(rows.map_values(comma) =~= Seq::<Seq<char>>::empty());
        assert(rows.map_values(colon) =~= Seq::<Seq<char>>::empty());
    } else {
        let rest = rows.drop_last();
        let r = rows.last();
        assert forall|i: int| 0 <= i < rest.len() implies single_line(#[trigger] rest[i].0)
            && single_line(rest[i].1) && first_index(rest[i].0, ',') == rest[i].0.len() by {
            assert(rest[i] == rows[i]);
        }
        lemma_csv_lines_of_rows(rest);
        assert(rows.map_values(comma).drop_last() =~= rest.map_values(comma));
        assert(rows.map_values(colon) =~= rest.map_values(colon).push(colon(r)));
        let row = comma(r);
        assert(rows.map_values(comma).last() == row);
        assert(single_line(rows[rows.len() - 1].0));
        assert(single_line(rows[rows.len() - 1].1));
        assert(row[r.0.len() as int] == ',');
        lemma_nonblank_trim(row, r.0.len() as int);
        assert forall|j: int| 0 <= j < r.0.len() implies #[trigger] row[j] != ',' by {
            assert(row[j] == r.0[j]);
            lemma_first_index_none(r.0, ',', j);
        }
        lemma_first_index(row, ',', r.0.len() as int);
        assert(row.take(r.0.len() as int) =~= r.0);
        assert(row.skip(r.0.len() as int + 1) =~= r.1);
        assert(r.0 + seq![':'] + r.1 =~= colon(r));
        if colon(r).len() > 0 {
            if r.1.len() > 0 {
                assert(colon(r).last() == r.1[r.1.len() - 1]);
            } else {
                assert(colon(r).last() == ':');
            }
        }
        lemma_plain_not_stripped(colon(r));
    }
}

proof fn lemma_csv_row_numbers_of_nonblank(rows: Seq<Seq<char>>)
    requires
        forall|i: int| 0 <= i < rows.len() ==> trim(#[trigger] rows[i]).len() > 0,
    ensures
        csv_row_numbers(rows) == Seq::new(rows.len(), |j: int| j + 2),
    decreases rows.len(),
{
    if rows.len() == 0 {
        assert(Seq::new(rows.len(), |j: int| j + 2) =~= Seq::<int>::empty());
    } else {
        let rest = rows.drop_last();
        assert forall|i: int| 0 <= i < rest.len() implies trim(#[trigger] rest[i]).len() > 0 by {
            assert(rest[i] == rows[i]);
        }
        lemma_csv_row_numbers_of_nonblank(rest);
        assert(trim(rows[rows.len() - 1]).len() > 0);
        assert(Seq::new(rows.len(), |j: int| j + 2) =~= Seq::new(rest.len(), |j: int| j + 2).push(
            rows.len() as int + 1,
        ));
    }
}

proof fn lemma_first_index_none(s: Seq<char>, c: char, j: int)
    requires
        first_index(s, c) == s.len(),
        0 <= j < s.len(),
    ensures
        s[j] != c,
    decreases s.len(),
{
    if s[0] != c && j > 0 {
        assert(s.drop_first()[j - 1] == s[j]);
        lemma_first_index_none(s.drop_first(), c, j - 1);
    }
}

/// The `csv` format reads the same identities as the `lines` format: for
/// any `(chain, address)` pairs (single-line texts, no comma in the
/// chain), the CSV text `chain,address` succeeds exactly when the lines
/// text `chain:address` does, with the same records and duplicate count;
/// a failure is the same failure, at the CSV line number (one more, for
/// the header).
pub proof fn law_csv_reads_like_lines(rows: Seq<(Seq<char>, Seq<char>)>, cli: Option<ChainTag>)
    requires
        forall|i: int|
            0 <= i < rows.len() ==> single_line(#[trigger] rows[i].0) && single_line(rows[i].1)
                && first_index(rows[i].0, ',') == rows[i].0.len(),
    ensures
        csv_outcome(pairs_as_csv(rows), cli) == match lines_outcome(
            text_lines(pairs_as_lines(rows)),
            cli,
        ) {
            Ok(x) => Ok(x),
            Err(e) => Err(shifted(e)),
        },
{
    reveal_strlit("chain,address");
    let comma = |r: (Seq<char>, Seq<char>)| r.0 + seq![','] + r.1;
    let colon = |r: (Seq<char>, Seq<char>)| r.0 + seq![':'] + r.1;
    let header = "chain,address"@;
    let csv_rows = seq![header] + rows.map_values(comma);
    let line_rows = rows.map_values(colon);
    assert forall|i: int| 0 <= i < line_rows.len() implies single_line(#[trigger] line_rows[i]) by {
        let r = rows[i];
        assert(single_line(rows[i].0));
        assert(single_line(rows[i].1));
        assert forall|k: int| 0 <= k < line_rows[i].len() implies #[trigger] line_rows[i][k] != '\n'
            && line_rows[i][k] != '\r' by {
            if k < r.0.len() {
                assert(line_rows[i][k] == r.0[k]);
            } else if k > r.0.len() {
                assert(line_rows[i][k] == r.1[k - r.0.len() - 1]);
            }
        }
    }
    assert forall|i: int| 0 <= i < csv_rows.len() implies single_line(#[trigger] csv_rows[i]) by {
        if i == 0 {
            assert(csv_rows[0] == header);
        } else {
            let r = rows[i - 1];
            assert(csv_rows[i] == comma(r));
            assert(single_line(rows[i - 1].0));
            assert(single_line(rows[i - 1].1));
            assert forall|k: int| 0 <= k < csv_rows[i].len() implies #[trigger] csv_rows[i][k] != '\n'
                && csv_rows[i][k] != '\r' by {
                if k < r.0.len() {
                    assert(csv_rows[i][k] == r.0[k]);
                } else if k > r.0.len() {
                    assert(csv_rows[i][k] == r.1[k - r.0.len() - 1]);
                }
            }
        }
    }
    lemma_scan_joined(line_rows);
    lemma_scan_joined(csv_rows);
    assert forall|i: int| 0 <= i < line_rows.len() implies strip_cr(#[trigger] line_rows[i])
        == line_rows[i] by {
        if line_rows[i].len() > 0 {
            assert(single_line(line_rows[i]));
            assert(line_rows[i][line_rows[i].len() - 1] != '\r');
        }
    }
    assert forall|i: int| 0 <= i < csv_rows.len() implies strip_cr(#[trigger] csv_rows[i])
        == csv_rows[i] by {
        if csv_rows[i].len() > 0 {
            assert(single_line(csv_rows[i]));
            assert(csv_rows[i][csv_rows[i].len() - 1] != '\r');
        }
    }
    let lt = text_lines(pairs_as_lines(rows));
    let ct = text_lines(pairs_as_csv(rows));
    assert(lt =~= line_rows);
    assert(ct =~= csv_rows);
    assert(ct[0] == header);
    assert(trim(header) == header) by {
        assert(!is_white_space(header[0]));
        assert(leading_space(header) == 0);
        let t = header.skip(0);
        assert(t =~= header);
        assert(!is_white_space(header.last()));
        assert(trailing_space(header) == 0);
        assert(header.take(header.len() as int) =~= header);
    }
    assert(ct.skip(1) =~= rows.map_values(comma));
    lemma_csv_lines_of_rows(rows);
    lemma_failure_line(line_rows, cli);
    assert forall|i: int| 1 <= i < ct.len() implies !csv_row_malformed(#[trigger] ct[i]) && trim(
        ct[i],
    ).len() > 0 by {
            let r = rows[i - 1];
            let row = ct[i];
            assert(row == comma(r));
            assert(row[r.0.len() as int] == ',');
            lemma_nonblank_trim(row, r.0.len() as int);
            assert forall|j: int| 0 <= j < r.0.len() implies #[trigger] row[j] != ',' by {
                assert(row[j] == r.0[j]);
                lemma_first_index_none(r.0, ',', j);
            }
        lemma_first_index(row, ',', r.0.len() as int);
    }
    lemma_first_malformed_none(ct, 1);
    assert forall|i: int| 0 <= i < ct.skip(1).len() implies trim(#[trigger] ct.skip(1)[i]).len()
        > 0 by {
        assert(ct.skip(1)[i] == ct[i + 1]);
    }
    lemma_csv_row_numbers_of_nonblank(ct.skip(1));
    let numbers = Seq::new(rows.len(), |j: int| j + 2);
    assert(csv_row_numbers(ct.skip(1)) == numbers);
    if let Err(e) = lines_outcome(line_rows, cli) {
        if e.0 != 3 {
            assert(numbers[e.1 - 1] == e.1 + 1);
        }
        assert(at_csv_line(e, numbers) == shifted(e));
    }
}

/// Where each byte's two digits stand in its lowercase hexadecimal text.
proof fn lemma_hex_lower_digits(b: Seq<u8>)
    ensures
        hex_lower_spec(b).len() == 2 * b.len(),
        forall|k: int|
            0 <= k < b.len() ==> hex_lower_spec(b)[2 * k] == hex_char((b[k] / 16) as nat)
                && hex_lower_spec(b)[2 * k + 1] == hex_char((b[k] % 16) as nat),
    decreases b.len(),
{
    if b.len() > 0 {
        let rest = b.drop_last();
        lemma_hex_lower_digits(rest);
        assert forall|k: int| 0 <= k < b.len() implies hex_lower_spec(b)[2 * k] == hex_char(
            (b[k] / 16) as nat,
        ) && hex_lower_spec(b)[2 * k + 1] == hex_char((b[k] % 16) as nat) by {
            if k < rest.len() {
                assert(rest[k] == b[k]);
            }
        }
    }
}

/// A lowercase hexadecimal digit reads back as its value.
proof fn lemma_hex_char_value(d: nat)
    requires
        d < 16,
    ensures
        hex_value(hex_char(d)) == Some(d as u8),
{
    reveal_with_fuel(digit_char, 1);
}

/// Decoding the lowercase hexadecimal text of any bytes gives those bytes
/// back.
pub proof fn law_hex_round_trip(b: Seq<u8>)
    ensures
        hex_bytes(hex_lower_spec(b)) == Some(b),
{
    let s = hex_lower_spec(b);
    lemma_hex_lower_digits(b);
    assert forall|i: int| 0 <= i < s.len() implies (#[trigger] hex_value(s[i])) is Some
        && hex_value(s[i])->0 < 16 by {
        let k = i / 2;
        if i % 2 == 0 {
            assert(i == 2 * k);
            lemma_hex_char_value((b[k] / 16) as nat);
        } else {
            assert(i == 2 * k + 1);
            lemma_hex_char_value((b[k] % 16) as nat);
        }
    }
    let decoded = Seq::new(
        (s.len() / 2) as nat,
        |i: int| (hex_value(s[2 * i])->0 * 16 + hex_value(s[2 * i + 1])->0) as u8,
    );
    assert forall|k: int| 0 <= k < b.len() implies decoded[k] == b[k] by {
        lemma_hex_char_value((b[k] / 16) as nat);
        lemma_hex_char_value((b[k] % 16) as nat);
    }
    assert(decoded =~= b);
}

/// The hexadecimal digit for `d < 16`, a letter in upper case when
/// `upper` holds.
pub open spec fn hex_char_cased(d: nat, upper: bool) -> char {
    if !upper || d < 10 {
        hex_char(d)
    } else if d == 10 {
        'A'
    } else if d == 11 {
        'B'
    } else if d == 12 {
        'C'
    } else if d == 13 {
        'D'
    } else if d == 14 {
        'E'
    } else {
        'F'
    }
}

/// Hexadecimal text of `bytes`, two digits per byte, high digit first,
/// the case of digit `i` chosen by `upper[i]`.
pub open spec fn hex_text_cased(bytes: Seq<u8>, upper: Seq<bool>) -> Seq<char> {
    Seq::new(
        (2 * bytes.len()) as nat,
        |i: int|
            hex_char_cased(
                if i % 2 == 0 {
                    (bytes[i / 2] / 16) as nat
                } else {
                    (bytes[i / 2] % 16) as nat
                },
                upper[i],
            ),
    )
}

proof fn lemma_hex_char_cased_value(d: nat, upper: bool)
    requires
        d < 16,
    ensures
        hex_value(hex_char_cased(d, upper)) == Some(d as u8),
{
    lemma_hex_char_value(d);
}

/// Decoding hexadecimal text gives back the bytes whatever the case of
/// each digit: lower, upper or mixed.
pub proof fn law_hex_round_trip_any_case(b: Seq<u8>, upper: Seq<bool>)
    requires
        upper.len() == 2 * b.len(),
    ensures
        hex_bytes(hex_text_cased(b, upper)) == Some(b),
{
    let s = hex_text_cased(b, upper);
    assert forall|i: int| 0 <= i < s.len() implies (#[trigger] hex_value(s[i])) is Some by {
        let k = i / 2;
        if i % 2 == 0 {
            lemma_hex_char_cased_value((b[k] / 16) as nat, upper[i]);
        } else {
            lemma_hex_char_cased_value((b[k] % 16) as nat, upper[i]);
        }
    }
    let decoded = Seq::new(
        (s.len() / 2) as nat,
        |i: int| (hex_value(s[2 * i])->0 * 16 + hex_value(s[2 * i + 1])->0) as u8,
    );
    assert forall|k: int| 0 <= k < b.len() implies decoded[k] == b[k] by {
        assert((2 * k) % 2 == 0 && (2 * k) / 2 == k);
        assert((2 * k + 1) % 2 == 1 && (2 * k + 1) / 2 == k);
        lemma_hex_char_cased_value((b[k] / 16) as nat, upper[2 * k]);
        lemma_hex_char_cased_value((b[k] % 16) as nat, upper[2 * k + 1]);
    }
    assert(decoded =~= b);
}

/// Text of odd length, or with a character that is no hexadecimal digit,
/// never decodes.
pub proof fn law_hex_rejects_malformed(t: Seq<char>)
    requires
        t.len() % 2 == 1 || exists|i: int| 0 <= i < t.len() && (#[trigger] hex_value(t[i])) is None,
    ensures
        hex_bytes(t) is None,
{
}

/// The name a chain tag is written with in `lines`/`csv` input.
pub open spec fn tag_input_name(t: ChainTag) -> Seq<char> {
    match t {
        ChainTag::Solana => "solana"@,
        ChainTag::Bsc => "bsc"@,
        ChainTag::Base => "base"@,
        ChainTag::Robinhood => "robinhood"@,
    }
}

/// Every chain tag's input name reads back as that tag, so that two
/// names never read as one tag and no chain is taken for another.
pub proof fn law_tag_name_round_trip(t: ChainTag)
    ensures
        tag_of_name(tag_input_name(t)) == Some(t),
{
    reveal_strlit("solana");
    reveal_strlit("bsc");
    reveal_strlit("base");
    reveal_strlit("robinhood");
    assert("bsc"@.len() != "solana"@.len());
    assert("base"@.len() != "solana"@.len() && "base"@.len() != "bsc"@.len());
    assert("robinhood"@.len() != "solana"@.len() && "robinhood"@.len() != "bsc"@.len()
        && "robinhood"@.len() != "base"@.len());
}

/// Distinct chain tags have distinct input names.
pub proof fn law_tag_names_are_distinct(a: ChainTag, b: ChainTag)
    requires
        a != b,
    ensures
        tag_input_name(a) != tag_input_name(b),
{
    law_tag_name_round_trip(a);
    law_tag_name_round_trip(b);
}

/// The `0x` text of any 20 bytes, its digits in any case, is a valid EVM
/// address whose canonical bytes are those 20 bytes.
pub proof fn law_evm_address_text_reads_back(b: Seq<u8>, upper: Seq<bool>, line: int)
    requires
        b.len() == 20,
        upper.len() == 40,
    ensures
        canonical_address(seq!['0', 'x'] + hex_text_cased(b, upper), ChainFamily::Evm, line) matches Ok(
            c,
        ) && c == (ChainFamily::Evm, b),
{
    let a = seq!['0', 'x'] + hex_text_cased(b, upper);
    assert(a.skip(2) =~= hex_text_cased(b, upper));
    law_hex_round_trip_any_case(b, upper);
}

} // verus!
