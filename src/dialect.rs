use vstd::prelude::*;

use crate::error::Error;
use crate::matcher::SearchMode;

verus! {

/// A regional dialect that a dictionary sense can be tagged with.
#[derive(Debug, PartialEq, Eq, Clone, Copy, Structural)]
pub enum Dialect {
    Hokkaido,
    Kansai,
    Kantou,
    Kyoto,
    Kyuushuu,
    Nagano,
    Osaka,
    Ryuukyuu,
    Touhoku,
    Tosa,
    Tsugaru,
}

/// The code that stands for a dialect in the dictionary and in storage.
pub open spec fn dialect_code(d: Dialect) -> Seq<char> {
    match d {
        Dialect::Hokkaido => seq!['h', 'o', 'b'],
        Dialect::Kansai => seq!['k', 's', 'b'],
        Dialect::Kantou => seq!['k', 't', 'b'],
        Dialect::Kyoto => seq!['k', 'y', 'b'],
        Dialect::Kyuushuu => seq!['k', 'y', 'u'],
        Dialect::Nagano => seq!['n', 'a', 'b'],
        Dialect::Osaka => seq!['o', 's', 'b'],
        Dialect::Ryuukyuu => seq!['r', 'k', 'b'],
        Dialect::Touhoku => seq!['t', 'h', 'b'],
        Dialect::Tosa => seq!['t', 's', 'b'],
        Dialect::Tsugaru => seq!['t', 's', 'u', 'g'],
    }
}

pub const ALL_DIALECTS: [Dialect; 11] = [
    Dialect::Hokkaido,
    Dialect::Kansai,
    Dialect::Kantou,
    Dialect::Kyoto,
    Dialect::Kyuushuu,
    Dialect::Nagano,
    Dialect::Osaka,
    Dialect::Ryuukyuu,
    Dialect::Touhoku,
    Dialect::Tosa,
    Dialect::Tsugaru,
];

impl Dialect {
    /// The dialect's code.
    pub fn as_str(&self) -> (r: &'static str)
        ensures
            r@ == dialect_code(*self),
    {
        proof {
            reveal_strlit("hob");
            reveal_strlit("ksb");
            reveal_strlit("ktb");
            reveal_strlit("kyb");
            reveal_strlit("kyu");
            reveal_strlit("nab");
            reveal_strlit("osb");
            reveal_strlit("rkb");
            reveal_strlit("thb");
            reveal_strlit("tsb");
            reveal_strlit("tsug");
        }
        match *self {
            Dialect::Hokkaido => "hob",
            Dialect::Kansai => "ksb",
            Dialect::Kantou => "ktb",
            Dialect::Kyoto => "kyb",
            Dialect::Kyuushuu => "kyu",
            Dialect::Nagano => "nab",
            Dialect::Osaka => "osb",
            Dialect::Ryuukyuu => "rkb",
            Dialect::Touhoku => "thb",
            Dialect::Tosa => "tsb",
            Dialect::Tsugaru => "tsug",
        }
    }

    /// The dialect whose code is `s`; `ParseError` if there is none.
    pub fn from_code(s: &str) -> (r: Result<Dialect, Error>)
        ensures
            r matches Ok(d) ==> dialect_code(d) == s@,
            r is Err ==> (r matches Err(Error::ParseError)) && forall|d: Dialect|
                dialect_code(d) != s@,
    {
        let mut i: usize = 0;
        while i < 11
            invariant
                i <= 11,
                forall|j: int| 0 <= j < i ==> dialect_code(#[trigger] ALL_DIALECTS@[j]) != s@,
            decreases 11 - i,
        {
            let d = ALL_DIALECTS[i];
            if SearchMode::Exact.matches(d.as_str(), s) {
                return Ok(d);
            }
            i = i + 1;
        }
        assert forall|d: Dialect| dialect_code(d) != s@ by {
            match d {
                Dialect::Hokkaido => assert(ALL_DIALECTS@[0] == d),
                Dialect::Kansai => assert(ALL_DIALECTS@[1] == d),
                Dialect::Kantou => assert(ALL_DIALECTS@[2] == d),
                Dialect::Kyoto => assert(ALL_DIALECTS@[3] == d),
                Dialect::Kyuushuu => assert(ALL_DIALECTS@[4] == d),
                Dialect::Nagano => assert(ALL_DIALECTS@[5] == d),
                Dialect::Osaka => assert(ALL_DIALECTS@[6] == d),
                Dialect::Ryuukyuu => assert(ALL_DIALECTS@[7] == d),
                Dialect::Touhoku => assert(ALL_DIALECTS@[8] == d),
                Dialect::Tosa => assert(ALL_DIALECTS@[9] == d),
                Dialect::Tsugaru => assert(ALL_DIALECTS@[10] == d),
            }
        }
        Err(Error::ParseError)
    }
}

} // verus!
