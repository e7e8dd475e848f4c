use vstd::prelude::*;

verus! {

/// A statistic that can be requested for each sampled key.
#[derive(PartialEq, Eq, Structural, Hash, Clone, Copy, Debug)]
pub enum Stats {
    Memory,
    Ttl,
    Type,
}

impl Stats {
    /// Every statistic, in the canonical order used by the stat protocol.
    pub fn all() -> (r: Vec<Stats>)
        ensures
            r@ == seq![Stats::Memory, Stats::Ttl, Stats::Type],
    {
        vec![Stats::Memory, Stats::Ttl, Stats::Type]
    }

    /// The statistic with the given name, if any.
    pub open spec fn from_name(s: Seq<char>) -> Option<Stats> {
        if s == "memory"@ {
            Some(Stats::Memory)
        } else if s == "ttl"@ {
            Some(Stats::Ttl)
        } else if s == "type"@ {
            Some(Stats::Type)
        } else {
            None
        }
    }

    /// Reads a statistic from its name; `None` for any other text.
    pub fn parse(s: &str) -> (r: Option<Stats>)
        ensures
            r == Stats::from_name(s@),
    {
        let text = s.to_owned();
        if text == "memory".to_owned() {
            Some(Stats::Memory)
        } else if text == "ttl".to_owned() {
            Some(Stats::Ttl)
        } else if text == "type".to_owned() {
            Some(Stats::Type)
        } else {
            None
        }
    }
}

impl std::str::FromStr for Stats {
    type Err = String;

    fn from_str(s: &str) -> Result<Stats, String> {
        match Stats::parse(s) {
            Some(st) => Ok(st),
            None => Err(s.to_owned()),
        }
    }
}

} // verus!
