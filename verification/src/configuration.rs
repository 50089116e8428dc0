//! Runtime environment selection.
//!
//! Loading the actual configuration files is I/O and lives outside the
//! library; only the environment name logic is kept here.

use vstd::prelude::*;

verus! {

/// The possible runtime environments for the application.
pub enum Environment {
    Local,
    Production,
}

impl Environment {
    /// The canonical lower-case name of the environment.
    pub fn as_str(&self) -> (r: &'static str)
        ensures
            self is Local ==> r@ == "local"@,
            self is Production ==> r@ == "production"@,
    {
        match self {
            Environment::Local => "local",
            Environment::Production => "production",
        }
    }
}

/// `c` with an ASCII capital folded to its small form; any other
/// character is left alone.
pub open spec fn ascii_lower_char(c: char) -> char {
    match c {
        'A' => 'a',
        'B' => 'b',
        'C' => 'c',
        'D' => 'd',
        'E' => 'e',
        'F' => 'f',
        'G' => 'g',
        'H' => 'h',
        'I' => 'i',
        'J' => 'j',
        'K' => 'k',
        'L' => 'l',
        'M' => 'm',
        'N' => 'n',
        'O' => 'o',
        'P' => 'p',
        'Q' => 'q',
        'R' => 'r',
        'S' => 's',
        'T' => 't',
        'U' => 'u',
        'V' => 'v',
        'W' => 'w',
        'X' => 'x',
        'Y' => 'y',
        'Z' => 'z',
        _ => c,
    }
}

/// `s` with every ASCII capital folded.
pub open spec fn lower_seq(s: Seq<char>) -> Seq<char> {
    s.map_values(|c: char| ascii_lower_char(c))
}

/// Folds one character.
fn to_lower(c: char) -> (r: char)
    ensures
        r == ascii_lower_char(c),
{
    match c {
        'A' => 'a',
        'B' => 'b',
        'C' => 'c',
        'D' => 'd',
        'E' => 'e',
        'F' => 'f',
        'G' => 'g',
        'H' => 'h',
        'I' => 'i',
        'J' => 'j',
        'K' => 'k',
        'L' => 'l',
        'M' => 'm',
        'N' => 'n',
        'O' => 'o',
        'P' => 'p',
        'Q' => 'q',
        'R' => 'r',
        'S' => 's',
        'T' => 't',
        'U' => 'u',
        'V' => 'v',
        'W' => 'w',
        'X' => 'x',
        'Y' => 'y',
        'Z' => 'z',
        _ => c,
    }
}

/// Whether `s`, case-folded, spells `target` exactly.
fn eq_lower(s: &str, target: &str) -> (r: bool)
    ensures
        r == (lower_seq(s@) == target@),
{
    let n = s.unicode_len();
    let m = target.unicode_len();
    if n != m {
        proof {
            assert(lower_seq(s@).len() == s@.len());
        }
        return false;
    }
    let mut i: usize = 0;
    while i < n
        invariant
            n == s@.len(),
            n == target@.len(),
            0 <= i <= n,
            forall|k: int| 0 <= k < i ==> #[trigger] lower_seq(s@)[k] == target@[k],
        decreases n - i,
    {
        let c = to_lower(s.get_char(i));
        let t = target.get_char(i);
        if c != t {
            proof {
                assert(lower_seq(s@)[i as int] != target@[i as int]);
            }
            return false;
        }
        proof {
            assert(lower_seq(s@)[i as int] == target@[i as int]);
        }
        i += 1;
    }
    proof {
        assert(lower_seq(s@) =~= target@);
    }
    true
}

impl Environment {
    /// Parses an environment name, accepting any capitalisation of the
    /// two known names.
    pub fn try_from(s: String) -> (r: Result<Environment, String>)
        ensures
            lower_seq(s@) == "local"@ ==> (r matches Ok(e) && e is Local),
            lower_seq(s@) == "production"@ ==> (r matches Ok(e) && e is Production),
            lower_seq(s@) != "local"@ && lower_seq(s@) != "production"@ ==> (r matches Err(m)
                && m@ == s@ + " is not a supported environment"@),
    {
        proof {
            // The two names differ (already in length), so at most one
            // branch's condition can hold.
            reveal_strlit("local");
            reveal_strlit("production");
        }
        if eq_lower(s.as_str(), "local") {
            proof {
                assert("local"@.len() == 5);
                assert("production"@.len() == 10);
                assert(lower_seq(s@) != "production"@);
            }
            Ok(Environment::Local)
        } else if eq_lower(s.as_str(), "production") {
            Ok(Environment::Production)
        } else {
            Err(s.concat(" is not a supported environment"))
        }
    }
}

} // verus!
