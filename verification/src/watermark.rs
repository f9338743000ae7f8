//! Ingestion watermarks: how far each scope has progressed through each
//! stage. The store that persists them is an SQLite database at the edge;
//! the stage names it writes and reads back are defined here.

use vstd::prelude::*;

use crate::text::text_eq;

verus! {

/// The stage a watermark records.
#[derive(Debug, Clone, Copy, PartialEq, Eq, Structural)]
pub enum WatermarkKind {
    Fetched,
    RawDurable,
    Decoded,
    LedgerApplied,
    Finalized,
}

/// The stored name of a stage.
pub open spec fn kind_name(k: WatermarkKind) -> Seq<char> {
    match k {
        WatermarkKind::Fetched => "fetched"@,
        WatermarkKind::RawDurable => "raw_durable"@,
        WatermarkKind::Decoded => "decoded"@,
        WatermarkKind::LedgerApplied => "ledger_applied"@,
        WatermarkKind::Finalized => "finalized"@,
    }
}

/// The stage a stored name denotes, if any.
pub open spec fn kind_of_name(s: Seq<char>) -> Option<WatermarkKind> {
    if s == "fetched"@ {
        Some(WatermarkKind::Fetched)
    } else if s == "raw_durable"@ {
        Some(WatermarkKind::RawDurable)
    } else if s == "decoded"@ {
        Some(WatermarkKind::Decoded)
    } else if s == "ledger_applied"@ {
        Some(WatermarkKind::LedgerApplied)
    } else if s == "finalized"@ {
        Some(WatermarkKind::Finalized)
    } else {
        None
    }
}

impl WatermarkKind {
    /// The stored name.
    pub fn as_str(self) -> (s: &'static str)
        ensures
            s@ == kind_name(self),
    {
        match self {
            WatermarkKind::Fetched => "fetched",
            WatermarkKind::RawDurable => "raw_durable",
            WatermarkKind::Decoded => "decoded",
            WatermarkKind::LedgerApplied => "ledger_applied",
            WatermarkKind::Finalized => "finalized",
        }
    }

    /// The stage a stored name denotes; `None` for any other text.
    pub fn from_str(s: &str) -> (r: Option<Self>)
        ensures
            r == kind_of_name(s@),
    {
        if text_eq(s, "fetched") {
            Some(WatermarkKind::Fetched)
        } else if text_eq(s, "raw_durable") {
            Some(WatermarkKind::RawDurable)
        } else if text_eq(s, "decoded") {
            Some(WatermarkKind::Decoded)
        } else if text_eq(s, "ledger_applied") {
            Some(WatermarkKind::LedgerApplied)
        } else if text_eq(s, "finalized") {
            Some(WatermarkKind::Finalized)
        } else {
            None
        }
    }
}

/// How far one scope has progressed through one stage.
#[derive(Debug)]
pub struct Watermark {
    pub scope: String,
    pub kind: WatermarkKind,
    pub position: String,
}

/// Every stage reads back as itself from its stored name, so what the
/// store writes for a kind is what it reads back.
pub proof fn law_kind_name_round_trip(k: WatermarkKind)
    ensures
        kind_of_name(kind_name(k)) == Some(k),
{
    reveal_strlit("fetched");
    reveal_strlit("raw_durable");
    reveal_strlit("decoded");
    reveal_strlit("ledger_applied");
    reveal_strlit("finalized");
    assert("fetched"@ != "raw_durable"@ && "fetched"@ != "decoded"@ && "fetched"@
        != "ledger_applied"@ && "fetched"@ != "finalized"@) by {
        assert("fetched"@.len() != "raw_durable"@.len());
        assert("fetched"@[0] != "decoded"@[0]);
        assert("fetched"@.len() != "ledger_applied"@.len());
        assert("fetched"@.len() != "finalized"@.len());
    }
    assert("raw_durable"@ != "decoded"@ && "raw_durable"@ != "ledger_applied"@ && "raw_durable"@
        != "finalized"@) by {
        assert("raw_durable"@.len() != "decoded"@.len());
        assert("raw_durable"@.len() != "ledger_applied"@.len());
        assert("raw_durable"@.len() != "finalized"@.len());
    }
    assert("decoded"@ != "ledger_applied"@ && "decoded"@ != "finalized"@) by {
        assert("decoded"@.len() != "ledger_applied"@.len());
        assert("decoded"@.len() != "finalized"@.len());
    }
    assert("ledger_applied"@ != "finalized"@) by {
        assert("ledger_applied"@.len() != "finalized"@.len());
    }
}

/// Distinct stages have distinct stored names.
pub proof fn law_kind_names_are_distinct(a: WatermarkKind, b: WatermarkKind)
    requires
        a != b,
    ensures
        kind_name(a) != kind_name(b),
{
    law_kind_name_round_trip(a);
    law_kind_name_round_trip(b);
}

} // verus!
