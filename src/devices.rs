//! Choice of the loopback source among input devices by name: a
//! PipeWire/PulseAudio monitor source is one whose lowercased name contains
//! `monitor`.
use vstd::prelude::*;
use vstd::string::StringSliceAdditionalSpecFns;
use vstd::utf8::encode_utf8;

verus! {

/// What `str::to_lowercase` returns for a name.
pub uninterp spec fn lower_of(s: Seq<char>) -> Seq<char>;

/// Relies on `str::to_lowercase`: its result depends on the characters alone.
#[verifier::external_body]
fn lowercase(s: &str) -> (r: String)
    ensures
        r@ == lower_of(s@),
{
    s.to_lowercase()
}

/// The UTF-8 bytes of `monitor`.
pub open spec fn monitor_word() -> Seq<u8> {
    seq![109u8, 111u8, 110u8, 105u8, 116u8, 111u8, 114u8]
}

/// `n` occurs in `h` at position `j`.
pub open spec fn occurs_at(h: Seq<u8>, n: Seq<u8>, j: int) -> bool {
    0 <= j && j + n.len() <= h.len() && h.subrange(j, j + n.len()) == n
}

/// `n` occurs somewhere in `h`.
pub open spec fn has_sub(h: Seq<u8>, n: Seq<u8>) -> bool {
    exists|j: int| occurs_at(h, n, j)
}

/// A device name that marks a monitor source.
pub open spec fn is_monitor_name(name: Seq<char>) -> bool {
    has_sub(encode_utf8(lower_of(name)), monitor_word())
}

/// Whether the bytes `n` occur in `h`.
pub fn contains_bytes(h: &[u8], n: &[u8]) -> (r: bool)
    ensures
        r == has_sub(h@, n@),
{
    if n.len() > h.len() {
        proof {
            assert forall|j: int| !occurs_at(h@, n@, j) by {}
        }
        return false;
    }
    if n.len() == 0 {
        proof {
            assert(h@.subrange(0, 0) =~= n@);
            assert(occurs_at(h@, n@, 0));
        }
        return true;
    }
    let hlen: usize = h.len();
    let last: usize = hlen - n.len();
    let mut i: usize = 0;
    while i <= last
        invariant
            hlen == h@.len(),
            n@.len() > 0,
            last == h@.len() - n@.len(),
            i <= last + 1,
            forall|j: int| 0 <= j < i ==> !occurs_at(h@, n@, j),
        decreases last + 1 - i,
    {
        let mut k: usize = 0;
        let mut same: bool = true;
        while k < n.len() && same
            invariant
                i <= last,
                hlen == h@.len(),
                last == h@.len() - n@.len(),
                k <= n@.len(),
                same ==> forall|m: int| 0 <= m < k ==> h@[i + m] == n@[m],
                !same ==> exists|m: int| 0 <= m < n@.len() && h@[i + m] != n@[m],
            decreases n@.len() - k + (if same { 1int } else { 0int }),
        {
            if h[i + k] != n[k] {
                same = false;
            } else {
                k = k + 1;
            }
        }
        if same {
            proof {
                assert(h@.subrange(i as int, i + n@.len()) =~= n@);
                assert(occurs_at(h@, n@, i as int));
            }
            return true;
        }
        proof {
            let m = choose|m: int| 0 <= m < n@.len() && h@[i + m] != n@[m];
            assert(h@.subrange(i as int, i + n@.len())[m] != n@[m]);
        }
        i = i + 1;
    }
    proof {
        assert forall|j: int| !occurs_at(h@, n@, j) by {
            if 0 <= j && j + n@.len() <= h@.len() {
                assert(j < i);
            }
        }
    }
    false
}

/// Whether an already lowercased name contains `monitor`.
pub fn is_monitor_lowercase(lower: &str) -> (r: bool)
    ensures
        r == has_sub(lower.spec_bytes(), monitor_word()),
{
    let word: [u8; 7] = [109u8, 111u8, 110u8, 105u8, 116u8, 111u8, 114u8];
    let ws: &[u8] = word.as_slice();
    assert(ws@ =~= monitor_word());
    contains_bytes(lower.as_bytes(), ws)
}

/// Whether a device name marks a monitor source.
pub fn is_monitor_source(name: &str) -> (r: bool)
    ensures
        r == is_monitor_name(name@),
{
    let lower = lowercase(name);
    is_monitor_lowercase(lower.as_str())
}

/// The first device name that marks a monitor source, if any.
pub fn find_monitor_device(names: &Vec<String>) -> (r: Option<usize>)
    ensures
        r is Some ==> r->0 < names@.len() && is_monitor_name(names@[r->0 as int]@),
        r is Some ==> forall|k: int| 0 <= k < r->0 ==> !is_monitor_name(#[trigger] names@[k]@),
        r is None ==> forall|k: int| 0 <= k < names@.len() ==> !is_monitor_name(#[trigger] names@[k]@),
{
    let mut i: usize = 0;
    while i < names.len()
        invariant
            i <= names@.len(),
            forall|k: int| 0 <= k < i ==> !is_monitor_name(#[trigger] names@[k]@),
        decreases names@.len() - i,
    {
        if is_monitor_source(names[i].as_str()) {
            return Some(i);
        }
        i = i + 1;
    }
    None
}

} // verus!
