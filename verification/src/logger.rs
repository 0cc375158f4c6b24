//! The decision rules of the editor's logger. The sink that formats and
//! prints a record lives outside the library; it asks these functions which
//! records matter and whether to show the source location.

use vstd::prelude::*;

verus! {

/// The editor's logger: it accepts every record, keeps only those from the
/// editor's own files, and shows `file:line` only where that helps.
pub struct MyLogger;

/// The bytes of `"mamar"` start at position `i` of `s`.
pub open spec fn mamar_at(s: Seq<u8>, i: int) -> bool {
    &&& 0 <= i
    &&& i + 5 <= s.len()
    &&& s[i] == 109
    &&& s[i + 1] == 97
    &&& s[i + 2] == 109
    &&& s[i + 3] == 97
    &&& s[i + 4] == 114
}

/// `s` contains `"mamar"` somewhere.
pub open spec fn contains_mamar(s: Seq<u8>) -> bool {
    exists|i: int| mamar_at(s, i)
}

impl MyLogger {
    /// Every record is enabled; filtering happens per record.
    pub fn enabled(&self) -> (r: bool)
        ensures
            r,
    {
        true
    }

    /// A record is kept only when its source file path names the editor
    /// itself: the path's bytes contain `"mamar"`.
    pub fn is_relevant_file(name: &[u8]) -> (r: bool)
        ensures
            r == contains_mamar(name@),
    {
        if name.len() < 5 {
            return false;
        }
        let mut i: usize = 0;
        while i <= name.len() - 5
            invariant
                name@.len() >= 5,
                0 <= i <= name@.len() - 4,
                forall|x: int| 0 <= x < i ==> !mamar_at(name@, x),
            decreases name@.len() - i,
        {
            let hit = *vstd::slice::slice_index_get(name, i) == 109
                && *vstd::slice::slice_index_get(name, i + 1) == 97
                && *vstd::slice::slice_index_get(name, i + 2) == 109
                && *vstd::slice::slice_index_get(name, i + 3) == 97
                && *vstd::slice::slice_index_get(name, i + 4) == 114;
            if hit {
                proof {
                    assert(mamar_at(name@, i as int));
                }
                return true;
            }
            proof {
                assert(!mamar_at(name@, i as int));
            }
            i = i + 1;
        }
        proof {
            assert forall|x: int| !mamar_at(name@, x) by {
                if 0 <= x <= name@.len() - 5 {
                    assert(!mamar_at(name@, x));
                }
            }
        }
        false
    }

    /// Whether the printed line carries `file:line` before the message: only
    /// when both are known, and in release builds only for records above the
    /// informational level.
    pub fn should_show_location(
        has_file: bool,
        has_line: bool,
        debug_build: bool,
        info_level: bool,
    ) -> (r: bool)
        ensures
            r == (has_file && has_line && (debug_build || !info_level)),
    {
        has_file && has_line && (debug_build || !info_level)
    }
}

} // verus!
