//! Location lookup helpers: the short country-name table and the
//! decisions of the database download flow.
//!
//! The database file itself is read by an outside library in the
//! surrounding binary; what the library decides - which display name a
//! country code gets, which archive entry is the database, whether a
//! file is fresh - stands here.

use vstd::prelude::*;
use vstd::string::StringExecFns;
use vstd::string::StrSliceExecFns;
use crate::config::last_slash;

verus! {

/// The abbreviated display name of a country code, where the full
/// registered name is unwieldy.
pub open spec fn brief_name(s: Seq<char>) -> Option<Seq<char>> {
    if s == "AG"@ {
        Some("Antigua & Barbuda"@)
    } else if s == "BO"@ {
        Some("Bolivia"@)
    } else if s == "BQ"@ {
        Some("Bonaire, Statia & Saba"@)
    } else if s == "BA"@ {
        Some("Bosnia & Herzegovina"@)
    } else if s == "IO"@ {
        Some("Brit. Indian Ocean Terr."@)
    } else if s == "BN"@ {
        Some("Brunei"@)
    } else if s == "CV"@ {
        Some("Cape Verde"@)
    } else if s == "CD"@ {
        Some("DR Congo"@)
    } else if s == "CI"@ {
        Some("Ivory Coast"@)
    } else if s == "FK"@ {
        Some("Falkland Islands"@)
    } else if s == "VA"@ {
        Some("Vatican City"@)
    } else if s == "IR"@ {
        Some("Iran"@)
    } else if s == "KP"@ {
        Some("North Korea"@)
    } else if s == "KR"@ {
        Some("South Korea"@)
    } else if s == "LA"@ {
        Some("Laos"@)
    } else if s == "MO"@ {
        Some("Macau"@)
    } else if s == "FM"@ {
        Some("Micronesia"@)
    } else if s == "MD"@ {
        Some("Moldova"@)
    } else if s == "NL"@ {
        Some("Netherlands"@)
    } else if s == "PS"@ {
        Some("Palestine"@)
    } else if s == "RU"@ {
        Some("Russia"@)
    } else if s == "BL"@ {
        Some("St. Barthelemy"@)
    } else if s == "KN"@ {
        Some("St. Kitts & Nevis"@)
    } else if s == "LC"@ {
        Some("St. Lucia"@)
    } else if s == "MF"@ {
        Some("St. Martin"@)
    } else if s == "PM"@ {
        Some("St. Pierre & Miquelon"@)
    } else if s == "VC"@ {
        Some("St. Vincent & Grenadines"@)
    } else if s == "ST"@ {
        Some("Sao Tome & Principe"@)
    } else if s == "SX"@ {
        Some("Sint Maarten"@)
    } else if s == "SJ"@ {
        Some("Svalbard & Jan Mayen"@)
    } else if s == "SY"@ {
        Some("Syria"@)
    } else if s == "TW"@ {
        Some("Taiwan, China"@)
    } else if s == "TZ"@ {
        Some("Tanzania"@)
    } else if s == "TL"@ {
        Some("East Timor"@)
    } else if s == "TT"@ {
        Some("Trinidad & Tobago"@)
    } else if s == "TR"@ {
        Some("Turkey"@)
    } else if s == "TC"@ {
        Some("Turks & Caicos Islands"@)
    } else if s == "GB"@ {
        Some("United Kingdom"@)
    } else if s == "UM"@ {
        Some("US Minor Outlying Is."@)
    } else if s == "US"@ {
        Some("United States"@)
    } else if s == "VE"@ {
        Some("Venezuela"@)
    } else if s == "VN"@ {
        Some("Vietnam"@)
    } else if s == "VG"@ {
        Some("British Virgin Is."@)
    } else if s == "VI"@ {
        Some("US Virgin Is."@)
    } else if s == "WF"@ {
        Some("Wallis & Futuna"@)
    } else {
        None
    }
}

/// Look up the abbreviated display name of a two-letter country code.
pub fn get_brief_name(code: &str) -> (r: Option<&'static str>)
    ensures
        r is Some <==> brief_name(code@) is Some,
        r matches Some(t) ==> (brief_name(code@) matches Some(b) && t@ == b),
{
    proof {
        reveal_strlit("AG");
        reveal_strlit("BO");
        reveal_strlit("BQ");
        reveal_strlit("BA");
        reveal_strlit("IO");
        reveal_strlit("BN");
        reveal_strlit("CV");
        reveal_strlit("CD");
        reveal_strlit("CI");
        reveal_strlit("FK");
        reveal_strlit("VA");
        reveal_strlit("IR");
        reveal_strlit("KP");
        reveal_strlit("KR");
        reveal_strlit("LA");
        reveal_strlit("MO");
        reveal_strlit("FM");
        reveal_strlit("MD");
        reveal_strlit("NL");
        reveal_strlit("PS");
        reveal_strlit("RU");
        reveal_strlit("BL");
        reveal_strlit("KN");
        reveal_strlit("LC");
        reveal_strlit("MF");
        reveal_strlit("PM");
        reveal_strlit("VC");
        reveal_strlit("ST");
        reveal_strlit("SX");
        reveal_strlit("SJ");
        reveal_strlit("SY");
        reveal_strlit("TW");
        reveal_strlit("TZ");
        reveal_strlit("TL");
        reveal_strlit("TT");
        reveal_strlit("TR");
        reveal_strlit("TC");
        reveal_strlit("GB");
        reveal_strlit("UM");
        reveal_strlit("US");
        reveal_strlit("VE");
        reveal_strlit("VN");
        reveal_strlit("VG");
        reveal_strlit("VI");
        reveal_strlit("WF");
    }
    let n = code.unicode_len();
    if n != 2 {
        return None;
    }
    let c0 = code.get_char(0);
    let c1 = code.get_char(1);
    if c0 == 'A' && c1 == 'G' {
        proof {
            assert(code@ =~= "AG"@);
        }
        return Some("Antigua & Barbuda");
    }
    if c0 == 'B' && c1 == 'O' {
        proof {
            assert(code@ =~= "BO"@);
        }
        return Some("Bolivia");
    }
    if c0 == 'B' && c1 == 'Q' {
        proof {
            assert(code@ =~= "BQ"@);
        }
        return Some("Bonaire, Statia & Saba");
    }
    if c0 == 'B' && c1 == 'A' {
        proof {
            assert(code@ =~= "BA"@);
        }
        return Some("Bosnia & Herzegovina");
    }
    if c0 == 'I' && c1 == 'O' {
        proof {
            assert(code@ =~= "IO"@);
        }
        return Some("Brit. Indian Ocean Terr.");
    }
    if c0 == 'B' && c1 == 'N' {
        proof {
            assert(code@ =~= "BN"@);
        }
        return Some("Brunei");
    }
    if c0 == 'C' && c1 == 'V' {
        proof {
            assert(code@ =~= "CV"@);
        }
        return Some("Cape Verde");
    }
    if c0 == 'C' && c1 == 'D' {
        proof {
            assert(code@ =~= "CD"@);
        }
        return Some("DR Congo");
    }
    if c0 == 'C' && c1 == 'I' {
        proof {
            assert(code@ =~= "CI"@);
        }
        return Some("Ivory Coast");
    }
    if c0 == 'F' && c1 == 'K' {
        proof {
            assert(code@ =~= "FK"@);
        }
        return Some("Falkland Islands");
    }
    if c0 == 'V' && c1 == 'A' {
        proof {
            assert(code@ =~= "VA"@);
        }
        return Some("Vatican City");
    }
    if c0 == 'I' && c1 == 'R' {
        proof {
            assert(code@ =~= "IR"@);
        }
        return Some("Iran");
    }
    if c0 == 'K' && c1 == 'P' {
        proof {
            assert(code@ =~= "KP"@);
        }
        return Some("North Korea");
    }
    if c0 == 'K' && c1 == 'R' {
        proof {
            assert(code@ =~= "KR"@);
        }
        return Some("South Korea");
    }
    if c0 == 'L' && c1 == 'A' {
        proof {
            assert(code@ =~= "LA"@);
        }
        return Some("Laos");
    }
    if c0 == 'M' && c1 == 'O' {
        proof {
            assert(code@ =~= "MO"@);
        }
        return Some("Macau");
    }
    if c0 == 'F' && c1 == 'M' {
        proof {
            assert(code@ =~= "FM"@);
        }
        return Some("Micronesia");
    }
    if c0 == 'M' && c1 == 'D' {
        proof {
            assert(code@ =~= "MD"@);
        }
        return Some("Moldova");
    }
    if c0 == 'N' && c1 == 'L' {
        proof {
            assert(code@ =~= "NL"@);
        }
        return Some("Netherlands");
    }
    if c0 == 'P' && c1 == 'S' {
        proof {
            assert(code@ =~= "PS"@);
        }
        return Some("Palestine");
    }
    if c0 == 'R' && c1 == 'U' {
        proof {
            assert(code@ =~= "RU"@);
        }
        return Some("Russia");
    }
    if c0 == 'B' && c1 == 'L' {
        proof {
            assert(code@ =~= "BL"@);
        }
        return Some("St. Barthelemy");
    }
    if c0 == 'K' && c1 == 'N' {
        proof {
            assert(code@ =~= "KN"@);
        }
        return Some("St. Kitts & Nevis");
    }
    if c0 == 'L' && c1 == 'C' {
        proof {
            assert(code@ =~= "LC"@);
        }
        return Some("St. Lucia");
    }
    if c0 == 'M' && c1 == 'F' {
        proof {
            assert(code@ =~= "MF"@);
        }
        return Some("St. Martin");
    }
    if c0 == 'P' && c1 == 'M' {
        proof {
            assert(code@ =~= "PM"@);
        }
        return Some("St. Pierre & Miquelon");
    }
    if c0 == 'V' && c1 == 'C' {
        proof {
            assert(code@ =~= "VC"@);
        }
        return Some("St. Vincent & Grenadines");
    }
    if c0 == 'S' && c1 == 'T' {
        proof {
            assert(code@ =~= "ST"@);
        }
        return Some("Sao Tome & Principe");
    }
    if c0 == 'S' && c1 == 'X' {
        proof {
            assert(code@ =~= "SX"@);
        }
        return Some("Sint Maarten");
    }
    if c0 == 'S' && c1 == 'J' {
        proof {
            assert(code@ =~= "SJ"@);
        }
        return Some("Svalbard & Jan Mayen");
    }
    if c0 == 'S' && c1 == 'Y' {
        proof {
            assert(code@ =~= "SY"@);
        }
        return Some("Syria");
    }
    if c0 == 'T' && c1 == 'W' {
        proof {
            assert(code@ =~= "TW"@);
        }
        return Some("Taiwan, China");
    }
    if c0 == 'T' && c1 == 'Z' {
        proof {
            assert(code@ =~= "TZ"@);
        }
        return Some("Tanzania");
    }
    if c0 == 'T' && c1 == 'L' {
        proof {
            assert(code@ =~= "TL"@);
        }
        return Some("East Timor");
    }
    if c0 == 'T' && c1 == 'T' {
        proof {
            assert(code@ =~= "TT"@);
        }
        return Some("Trinidad & Tobago");
    }
    if c0 == 'T' && c1 == 'R' {
        proof {
            assert(code@ =~= "TR"@);
        }
        return Some("Turkey");
    }
    if c0 == 'T' && c1 == 'C' {
        proof {
            assert(code@ =~= "TC"@);
        }
        return Some("Turks & Caicos Islands");
    }
    if c0 == 'G' && c1 == 'B' {
        proof {
            assert(code@ =~= "GB"@);
        }
        return Some("United Kingdom");
    }
    if c0 == 'U' && c1 == 'M' {
        proof {
            assert(code@ =~= "UM"@);
        }
        return Some("US Minor Outlying Is.");
    }
    if c0 == 'U' && c1 == 'S' {
        proof {
            assert(code@ =~= "US"@);
        }
        return Some("United States");
    }
    if c0 == 'V' && c1 == 'E' {
        proof {
            assert(code@ =~= "VE"@);
        }
        return Some("Venezuela");
    }
    if c0 == 'V' && c1 == 'N' {
        proof {
            assert(code@ =~= "VN"@);
        }
        return Some("Vietnam");
    }
    if c0 == 'V' && c1 == 'G' {
        proof {
            assert(code@ =~= "VG"@);
        }
        return Some("British Virgin Is.");
    }
    if c0 == 'V' && c1 == 'I' {
        proof {
            assert(code@ =~= "VI"@);
        }
        return Some("US Virgin Is.");
    }
    if c0 == 'W' && c1 == 'F' {
        proof {
            assert(code@ =~= "WF"@);
        }
        return Some("Wallis & Futuna");
    }
    None
}

/// The name a record's country is shown under: the brief form where
/// the table has one, else the registered long name.
pub fn country_display_name(short: &str, long: &str) -> (r: String)
    ensures
        brief_name(short@) matches Some(b) ==> r@ == b,
        brief_name(short@) is None ==> r@ == long@,
{
    match get_brief_name(short) {
        Some(b) => String::from_str(b),
        None => String::from_str(long),
    }
}

/// An archive entry holds the database when its name ends in `.bin`,
/// whatever the letter case.
pub open spec fn spec_is_database_entry(s: Seq<char>) -> bool {
    &&& s.len() >= 4
    &&& s[s.len() - 4] == '.'
    &&& (s[s.len() - 3] == 'b' || s[s.len() - 3] == 'B')
    &&& (s[s.len() - 2] == 'i' || s[s.len() - 2] == 'I')
    &&& (s[s.len() - 1] == 'n' || s[s.len() - 1] == 'N')
}

/// Whether an archive entry's name ends in `.bin`, case-insensitively.
pub fn zip_entry_is_database(name: &str) -> (r: bool)
    ensures
        r == spec_is_database_entry(name@),
{
    let n = name.unicode_len();
    if n < 4 {
        return false;
    }
    let d = name.get_char(n - 4);
    let b = name.get_char(n - 3);
    let i = name.get_char(n - 2);
    let e = name.get_char(n - 1);
    d == '.' && (b == 'b' || b == 'B') && (i == 'i' || i == 'I') && (e == 'n' || e == 'N')
}

/// The file-name part of an archive entry: what follows the last `/`,
/// or the whole name where there is none.
pub fn file_name_of(name: &str) -> (r: String)
    ensures
        last_slash(name@) matches Some(i) ==> r@ == name@.skip(i + 1),
        last_slash(name@) is None ==> r@ == name@,
{
    let n = name.unicode_len();
    let mut k = n;
    proof {
        assert(name@.take(n as int) =~= name@);
    }
    while k > 0
        invariant
            n == name@.len(),
            k <= n,
            last_slash(name@) == last_slash(name@.take(k as int)),
        decreases k,
    {
        proof {
            assert(name@.take(k as int).drop_last() =~= name@.take(k as int - 1));
            assert(name@.take(k as int).last() == name@[k as int - 1]);
        }
        let c = name.get_char(k - 1);
        if c == '/' {
            let tail = name.substring_char(k, n);
            proof {
                assert(tail@ =~= name@.skip(k as int));
            }
            return String::from_str(tail);
        }
        k = k - 1;
    }
    proof {
        assert(name@.take(0) =~= Seq::<char>::empty());
    }
    String::from_str(name)
}

/// The two magic octets every ZIP archive opens with.
pub fn is_zip_magic(b0: u8, b1: u8) -> (r: bool)
    ensures
        r <==> (b0 == 0x50 && b1 == 0x4B),
{
    b0 == 0x50 && b1 == 0x4B
}

/// A downloaded database is fresh while it is younger than six hours.
pub fn database_is_fresh(age_secs: u64) -> (r: bool)
    ensures
        r <==> age_secs < 21600,
{
    age_secs < 21600
}

} // verus!
