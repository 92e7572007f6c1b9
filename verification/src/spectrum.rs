//! Selection of the dominant frequency bin of a magnitude spectrum.
use vstd::prelude::*;
use crate::order::{all_ordered, is_first_max, scan_max, scan_max_from, lemma_scan_max_is_first_max};

verus! {

/// Frequency-domain analysis of vibe fields.
pub struct VibeSpectrum;

impl VibeSpectrum {
    /// Index of the dominant frequency of a spectrum given by the order keys
    /// of its magnitudes (bin `k` at position `k`): the DC bin 0 is skipped,
    /// the scan starts at bin 1 and moves to a later bin only when its
    /// magnitude is strictly larger. A spectrum of fewer than two bins has no
    /// bin besides DC, and the answer is 0.
    pub fn dominant_bin(&self, magnitude_keys: &[Option<u64>]) -> (r: usize)
        ensures
            magnitude_keys@.len() < 2 ==> r == 0,
            magnitude_keys@.len() >= 2 ==> {
                &&& r == scan_max(magnitude_keys@, 1, magnitude_keys@.len() as int)
                &&& 1 <= r < magnitude_keys@.len()
                &&& all_ordered(magnitude_keys@, 1, magnitude_keys@.len() as int) ==> is_first_max(
                    magnitude_keys@,
                    1,
                    magnitude_keys@.len() as int,
                    r as int,
                )
            },
    {
        if magnitude_keys.len() < 2 {
            return 0;
        }
        let r = scan_max_from(magnitude_keys, 1);
        proof {
            if all_ordered(magnitude_keys@, 1, magnitude_keys@.len() as int) {
                lemma_scan_max_is_first_max(magnitude_keys@, 1, magnitude_keys@.len() as int);
            }
        }
        r
    }
}

} // verus!
