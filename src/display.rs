use vstd::prelude::*;
use vstd::string::*;

verus! {

/// The text shown in a column `width` bytes wide: unchanged when it fits,
/// else its first `width - 1` characters followed by an ellipsis.
pub open spec fn truncate_spec(s: Seq<char>, byte_len: nat, width: nat) -> Seq<char> {
    if byte_len <= width {
        s
    } else {
        let keep = if width == 0 {
            0
        } else {
            width - 1
        };
        let k = if keep < s.len() {
            keep
        } else {
            s.len() as int
        };
        s.take(k) + seq!['\u{2026}']
    }
}

/// Fits a name into a table column.
pub fn truncate(s: &str, width: usize) -> (r: String)
    ensures
        r@ == truncate_spec(s@, s.len() as nat, width as nat),
{
    if s.len() <= width {
        return s.to_string();
    }
    let keep: usize = if width == 0 {
        0
    } else {
        width - 1
    };
    let n = s.unicode_len();
    let k: usize = if keep < n {
        keep
    } else {
        n
    };
    let mut t = s.substring_char(0, k).to_string();
    t.append("\u{2026}");
    proof {
        reveal_strlit("\u{2026}");
        assert(s@.subrange(0, k as int) =~= s@.take(k as int));
    }
    t
}

} // verus!
