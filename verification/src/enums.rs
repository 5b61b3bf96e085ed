//! The closed set of user actions: the two stored metric kinds (`Size`,
//! `XXH3`) and the meta-operation `Check`, together with the canonical
//! lowercase name of each action and case-insensitive parsing of a name.
//!
//! Parsing accepts exactly the strings whose Unicode lowercase form is a
//! canonical name.  The names hold only lowercase ASCII letters and a
//! digit, and the only characters Unicode lowercasing maps onto such a
//! letter are the letter itself, its ASCII uppercase, and — for `k` alone —
//! the Kelvin sign (U+212A); every other mapping is non-ASCII or grows the
//! string.  `char_folds_to` states that set directly.

use vstd::prelude::*;

verus! {

/// One action the tool can perform.  `Size` and `XXH3` are the metric kinds
/// that a manifest stores; `Check` is a mode selector, never a stored metric.
#[derive(Clone, Copy, Debug, PartialEq, Eq, Structural)]
pub enum UserAction {
    Check,
    Size,
    XXH3,
}

/// The canonical lowercase name of an action, used both as the per-line tag
/// and for the manifest's file name.
pub open spec fn name_of(a: UserAction) -> Seq<char> {
    match a {
        UserAction::Size => "size"@,
        UserAction::Check => "check"@,
        UserAction::XXH3 => "xxh3"@,
    }
}

/// Unicode lowercasing turns `a` into the lowercase ASCII character `t`:
/// `a` is `t` itself, its ASCII uppercase, or — when `t` is `k` — the
/// Kelvin sign.
pub open spec fn char_folds_to(a: char, t: char) -> bool {
    a == t || (97 <= t as u32 <= 122 && a as u32 + 32 == t as u32) || (t as u32 == 107 && a as u32
        == 0x212A)
}

/// Unicode lowercasing turns `s` into the lowercase ASCII string `t`.
pub open spec fn str_folds_to(s: Seq<char>, t: Seq<char>) -> bool {
    s.len() == t.len() && forall|i: int| 0 <= i < s.len() ==> char_folds_to(s[i], t[i])
}

/// The action whose name `s` lowercases to, if any.
pub open spec fn parse_action(s: Seq<char>) -> Option<UserAction> {
    if str_folds_to(s, name_of(UserAction::Size)) {
        Some(UserAction::Size)
    } else if str_folds_to(s, name_of(UserAction::Check)) {
        Some(UserAction::Check)
    } else if str_folds_to(s, name_of(UserAction::XXH3)) {
        Some(UserAction::XXH3)
    } else {
        None
    }
}

/// A canonical name parses back to its own action.
pub proof fn lemma_parse_action_name(a: UserAction)
    ensures
        parse_action(name_of(a)) == Some(a),
{
    reveal_strlit("size");
    reveal_strlit("check");
    reveal_strlit("xxh3");
    assert("size"@ =~= seq!['s', 'i', 'z', 'e']);
    assert("check"@ =~= seq!['c', 'h', 'e', 'c', 'k']);
    assert("xxh3"@ =~= seq!['x', 'x', 'h', '3']);
    assert(forall|s: Seq<char>| str_folds_to(s, s));
    match a {
        UserAction::Size => {
        },
        UserAction::Check => {
            assert(!char_folds_to("check"@[0], "size"@[0]));
            assert(!str_folds_to(name_of(a), name_of(UserAction::Size)));
        },
        UserAction::XXH3 => {
            assert(!char_folds_to("xxh3"@[0], "size"@[0]));
            assert(!str_folds_to(name_of(a), name_of(UserAction::Size)));
            assert(!str_folds_to(name_of(a), name_of(UserAction::Check)));
        },
    }
}

impl UserAction {
    /// The canonical lowercase name of this action.
    pub fn name(&self) -> (r: String)
        ensures
            r@ == name_of(*self),
    {
        match self {
            UserAction::Size => String::from_str("size"),
            UserAction::Check => String::from_str("check"),
            UserAction::XXH3 => String::from_str("xxh3"),
        }
    }

    /// Parses an action name, case-insensitively; any other string is
    /// rejected with a message naming it.
    pub fn from_str(s: &str) -> (r: Result<UserAction, String>)
        ensures
            r is Ok <==> parse_action(s@) is Some,
            r is Ok ==> parse_action(s@) == Some(r->Ok_0),
            r is Err ==> r->Err_0@ == "Unsupported action: "@ + s@,
    {
        if matches_folded(s, "size") {
            proof {
                reveal_strlit("size");
            }
            Ok(UserAction::Size)
        } else if matches_folded(s, "check") {
            proof {
                reveal_strlit("check");
            }
            Ok(UserAction::Check)
        } else if matches_folded(s, "xxh3") {
            proof {
                reveal_strlit("xxh3");
            }
            Ok(UserAction::XXH3)
        } else {
            let mut msg = String::from_str("Unsupported action: ");
            msg.append(s);
            Err(msg)
        }
    }
}

/// Whether `s` lowercases to the lowercase ASCII string `t`.
fn matches_folded(s: &str, t: &str) -> (r: bool)
    ensures
        r == str_folds_to(s@, t@),
{
    let ns = s.unicode_len();
    let nt = t.unicode_len();
    if ns != nt {
        return false;
    }
    let mut i: usize = 0;
    while i < ns
        invariant
            0 <= i <= ns,
            ns == s@.len(),
            ns == t@.len(),
            forall|j: int| 0 <= j < i ==> char_folds_to(s@[j], t@[j]),
        decreases ns - i,
    {
        let a = s.get_char(i);
        let t_c = t.get_char(i);
        let au = a as u32;
        let tu = t_c as u32;
        let same = if a == t_c {
            true
        } else if 97 <= tu && tu <= 122 && au == tu - 32 {
            true
        } else {
            tu == 107 && au == 0x212A
        };
        if !same {
            assert(!char_folds_to(s@[i as int], t@[i as int]));
            return false;
        }
        assert(char_folds_to(s@[i as int], t@[i as int]));
        i += 1;
    }
    true
}

} // verus!
