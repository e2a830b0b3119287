use vstd::prelude::*;
use vstd::string::StrSliceExecFns;

verus! {

/// Position of the first `::` separator at or after `i`, if any.
pub open spec fn sep_pos_from(s: Seq<char>, i: int) -> Option<int>
    decreases s.len() - i,
{
    if i < 0 || i + 2 > s.len() {
        None
    } else if s[i] == ':' && s[i + 1] == ':' {
        Some(i)
    } else {
        sep_pos_from(s, i + 1)
    }
}

/// A found separator lies within bounds, at or after where the search
/// started, and is a real `::`.
pub proof fn lemma_sep_pos_from(s: Seq<char>, i: int)
    ensures
        sep_pos_from(s, i) matches Some(p) ==> i <= p && 0 <= p && p + 2 <= s.len() && s[p] == ':'
            && s[p + 1] == ':',
    decreases s.len() - i,
{
    if !(i < 0 || i + 2 > s.len()) && !(s[i] == ':' && s[i + 1] == ':') {
        lemma_sep_pos_from(s, i + 1);
    }
}

/// The owner part of a combined `owner::module` identity: everything
/// before the first `::`, or the whole string when there is none.
pub open spec fn spec_owner_of(s: Seq<char>) -> Seq<char> {
    match sep_pos_from(s, 0) {
        Some(p) => s.subrange(0, p),
        None => s,
    }
}

/// The module-name part of a combined identity: the piece between the
/// first `::` and the second one (or the end); nothing when the
/// identity holds no `::` at all.
pub open spec fn spec_module_name_of(s: Seq<char>) -> Option<Seq<char>> {
    match sep_pos_from(s, 0) {
        Some(p) => match sep_pos_from(s, p + 2) {
            Some(q) => Some(s.subrange(p + 2, q)),
            None => Some(s.subrange(p + 2, s.len() as int)),
        },
        None => None,
    }
}

/// Finds the first `::` at or after character position `from`.
fn find_sep(s: &str, from: usize) -> (r: Option<usize>)
    ensures
        r matches Some(p) ==> sep_pos_from(s@, from as int) == Some(p as int),
        r is None ==> sep_pos_from(s@, from as int) is None,
{
    let n = s.unicode_len();
    if from >= n {
        return None;
    }
    let mut i: usize = from;
    while i < n - 1
        invariant
            1 <= n,
            from <= i <= n,
            n == s@.len(),
            sep_pos_from(s@, from as int) == sep_pos_from(s@, i as int),
        decreases n - i,
    {
        let c0 = s.get_char(i);
        let c1 = s.get_char(i + 1);
        if c0 == ':' && c1 == ':' {
            return Some(i);
        }
        i = i + 1;
    }
    None
}

/// The owner part of a combined identity string, as a fresh string.
pub fn owner_of(s: &str) -> (r: String)
    ensures
        r@ == spec_owner_of(s@),
{
    proof {
        lemma_sep_pos_from(s@, 0);
    }
    match find_sep(s, 0) {
        Some(p) => s.substring_char(0, p).to_owned(),
        None => s.to_owned(),
    }
}

/// The module-name part of a combined identity string, if it has one.
pub fn module_name_of(s: &str) -> (r: Option<String>)
    ensures
        r matches Some(m) ==> spec_module_name_of(s@) == Some(m@),
        r is None <==> spec_module_name_of(s@) is None,
{
    proof {
        lemma_sep_pos_from(s@, 0);
    }
    match find_sep(s, 0) {
        Some(p) => {
            proof {
                lemma_sep_pos_from(s@, p as int + 2);
            }
            let n = s.unicode_len();
            match find_sep(s, p + 2) {
                Some(q) => Some(s.substring_char(p + 2, q).to_owned()),
                None => Some(s.substring_char(p + 2, n).to_owned()),
            }
        },
        None => None,
    }
}

} // verus!
