//! The integrity manifest: entries of destination filename and hex digest,
//! kept sorted by filename, rendered as one line per asset, and compared
//! byte-for-byte after the round trip through the server.

use vstd::prelude::*;
use crate::byteseq::{
    concat_bytes, eq_bytes, le_bytes, lemma_lex_le_antisym, lemma_lex_le_total,
    lemma_lex_le_trans, lex_lt,
};
use crate::lit::{double_space, newline, spec_double_space, spec_newline};

verus! {

/// One manifest entry: a destination filename and the hex digest of the
/// asset's bytes.
pub struct ManifestEntry {
    pub dest: Vec<u8>,
    pub digest_hex: Vec<u8>,
}

/// The manifest under construction.
pub struct Manifest {
    pub entries: Vec<ManifestEntry>,
}

/// The entries are strictly sorted by destination filename.
pub open spec fn manifest_wf(entries: Seq<ManifestEntry>) -> bool {
    forall|j: int, k: int|
        0 <= j < k < entries.len() ==> lex_lt(#[trigger] entries[j].dest@, #[trigger] entries[k].dest@)
}

/// The manifest maps `dest` to `dg`.
pub open spec fn has_entry(entries: Seq<ManifestEntry>, dest: Seq<u8>, dg: Seq<u8>) -> bool {
    exists|i: int|
        0 <= i < entries.len() && entries[i].dest@ == dest && entries[i].digest_hex@ == dg
}

/// One rendered manifest line: digest, two spaces, filename, newline.
pub open spec fn spec_line(dg: Seq<u8>, dest: Seq<u8>) -> Seq<u8> {
    dg + spec_double_space() + dest + spec_newline()
}

/// The rendered manifest: the lines of the entries in order.
pub open spec fn spec_render(entries: Seq<ManifestEntry>) -> Seq<u8>
    decreases entries.len(),
{
    if entries.len() == 0 {
        Seq::empty()
    } else {
        spec_render(entries.drop_last()) + spec_line(
            entries.last().digest_hex@,
            entries.last().dest@,
        )
    }
}

/// The position at which an entry for `dest` belongs: the first index whose
/// name is not strictly below `dest`.
fn find_insert_pos(entries: &Vec<ManifestEntry>, dest: &Vec<u8>) -> (idx: usize)
    ensures
        idx <= entries@.len(),
        forall|j: int| 0 <= j < idx ==> lex_lt(entries@[j].dest@, dest@),
        idx < entries@.len() ==> !lex_lt(entries@[idx as int].dest@, dest@),
{
    let mut idx: usize = 0;
    while idx < entries.len()
        invariant
            idx <= entries@.len(),
            forall|j: int| 0 <= j < idx ==> lex_lt(entries@[j].dest@, dest@),
        decreases entries.len() - idx,
    {
        let below = le_bytes(&entries[idx].dest, dest);
        let same = eq_bytes(&entries[idx].dest, dest);
        if !(below && !same) {
            return idx;
        }
        idx = idx + 1;
    }
    idx
}

impl Manifest {
    /// An empty manifest.
    pub fn new() -> (r: Manifest)
        ensures
            r.entries@.len() == 0,
            manifest_wf(r.entries@),
    {
        Manifest { entries: Vec::new() }
    }

    /// Record the digest of one uploaded asset, replacing any digest already
    /// recorded under the same destination name.
    pub fn insert(&mut self, dest: Vec<u8>, digest_hex: Vec<u8>)
        requires
            manifest_wf(old(self).entries@),
        ensures
            manifest_wf(final(self).entries@),
            forall|d: Seq<u8>, g: Seq<u8>|
                #[trigger] has_entry(final(self).entries@, d, g) <==> if d == dest@ {
                    g == digest_hex@
                } else {
                    has_entry(old(self).entries@, d, g)
                },
    {
        let ghost old_entries = self.entries@;
        let ghost destv = dest@;
        let ghost dgv = digest_hex@;
        let idx = find_insert_pos(&self.entries, &dest);
        let len = self.entries.len();
        if idx < len && eq_bytes(&self.entries[idx].dest, &dest) {
            let e = ManifestEntry { dest, digest_hex };
            let ghost new_entry = e;
            self.entries.set(idx, e);
            proof {
                let s = self.entries@;
                assert forall|j: int, k: int| 0 <= j < k < s.len() implies lex_lt(
                    s[j].dest@,
                    s[k].dest@,
                ) by {
                    assert(lex_lt(old_entries[j].dest@, old_entries[k].dest@));
                }
                lemma_entry_lookup(old_entries, s, idx as int, destv, dgv);
            }
        } else {
            proof {
                if idx < len {
                    lemma_lex_le_total(old_entries[idx as int].dest@, destv);
                    assert(lex_lt(destv, old_entries[idx as int].dest@));
                }
                assert forall|j: int|
                    0 <= j < old_entries.len() implies old_entries[j].dest@ != destv by {
                    if j < idx {
                        assert(lex_lt(old_entries[j].dest@, destv));
                    } else {
                        assert(lex_lt(destv, old_entries[idx as int].dest@));
                        if idx < j {
                            assert(lex_lt(old_entries[idx as int].dest@, old_entries[j].dest@));
                            lemma_lex_lt_trans(
                                destv,
                                old_entries[idx as int].dest@,
                                old_entries[j].dest@,
                            );
                        }
                    }
                }
            }
            let e = ManifestEntry { dest, digest_hex };
            let ghost new_entry = e;
            self.entries.insert(idx, e);
            proof {
                let s = self.entries@;
                assert(s == old_entries.insert(idx as int, new_entry));
                assert forall|j: int, k: int| 0 <= j < k < s.len() implies lex_lt(
                    s[j].dest@,
                    s[k].dest@,
                ) by {
                    lemma_sorted_after_insert(old_entries, s, idx as int, new_entry, j, k);
                }
                lemma_lookup_after_insert(old_entries, s, idx as int, destv, dgv);
            }
        }
    }

    /// Render the manifest as text: one line per entry, in order.
    pub fn render(&self) -> (r: Vec<u8>)
        ensures
            r@ == spec_render(self.entries@),
    {
        let mut out: Vec<u8> = Vec::new();
        let mut i: usize = 0;
        while i < self.entries.len()
            invariant
                i <= self.entries@.len(),
                out@ == spec_render(self.entries@.take(i as int)),
            decreases self.entries.len() - i,
        {
            let e = &self.entries[i];
            let line = concat_bytes(
                concat_bytes(
                    concat_bytes(crate::byteseq::subvec(&e.digest_hex, 0, e.digest_hex.len()), &double_space()),
                    &e.dest,
                ),
                &newline(),
            );
            out = concat_bytes(out, &line);
            proof {
                assert(e.digest_hex@.subrange(0, e.digest_hex@.len() as int) =~= e.digest_hex@);
                let t = self.entries@.take(i + 1);
                assert(t.drop_last() =~= self.entries@.take(i as int));
                assert(t.last() == self.entries@[i as int]);
                assert(line@ =~= spec_line(e.digest_hex@, e.dest@));
                assert(out@ =~= spec_render(t));
            }
            i = i + 1;
        }
        proof {
            assert(self.entries@.take(self.entries@.len() as int) =~= self.entries@);
        }
        out
    }
}

/// After replacing the entry at `idx` by one for `dest`, lookups see the new
/// digest under `dest` and the old entries elsewhere.
proof fn lemma_entry_lookup(
    old_entries: Seq<ManifestEntry>,
    s: Seq<ManifestEntry>,
    idx: int,
    dest: Seq<u8>,
    dg: Seq<u8>,
)
    requires
        manifest_wf(old_entries),
        0 <= idx < old_entries.len(),
        old_entries[idx].dest@ == dest,
        s.len() == old_entries.len(),
        s[idx].dest@ == dest,
        s[idx].digest_hex@ == dg,
        forall|j: int| 0 <= j < s.len() && j != idx ==> s[j] == old_entries[j],
    ensures
        forall|d: Seq<u8>, g: Seq<u8>|
            #[trigger] has_entry(s, d, g) <==> if d == dest {
                g == dg
            } else {
                has_entry(old_entries, d, g)
            },
{
    assert forall|d: Seq<u8>, g: Seq<u8>| #[trigger] has_entry(s, d, g) implies (if d == dest {
        g == dg
    } else {
        has_entry(old_entries, d, g)
    }) by {
        let i = choose|i: int|
            0 <= i < s.len() && s[i].dest@ == d && s[i].digest_hex@ == g;
        if d == dest {
            if i != idx {
                lemma_distinct_dests(old_entries, i, idx);
            }
        } else {
            assert(i != idx);
            assert(old_entries[i].dest@ == d && old_entries[i].digest_hex@ == g);
        }
    }
    assert forall|d: Seq<u8>, g: Seq<u8>| (if d == dest {
        g == dg
    } else {
        has_entry(old_entries, d, g)
    }) implies #[trigger] has_entry(s, d, g) by {
        if d == dest {
            assert(s[idx].dest@ == d && s[idx].digest_hex@ == g);
        } else {
            let i = choose|i: int|
                0 <= i < old_entries.len() && old_entries[i].dest@ == d
                    && old_entries[i].digest_hex@ == g;
            assert(i != idx);
            assert(s[i].dest@ == d && s[i].digest_hex@ == g);
        }
    }
}

/// In a strictly sorted manifest two distinct positions hold distinct names.
proof fn lemma_distinct_dests(entries: Seq<ManifestEntry>, i: int, j: int)
    requires
        manifest_wf(entries),
        0 <= i < entries.len(),
        0 <= j < entries.len(),
        i != j,
    ensures
        entries[i].dest@ != entries[j].dest@,
{
    if i < j {
        assert(lex_lt(entries[i].dest@, entries[j].dest@));
    } else {
        assert(lex_lt(entries[j].dest@, entries[i].dest@));
    }
}

/// Strict sortedness survives inserting `e` at the boundary position `idx`.
proof fn lemma_sorted_after_insert(
    old_entries: Seq<ManifestEntry>,
    s: Seq<ManifestEntry>,
    idx: int,
    e: ManifestEntry,
    j: int,
    k: int,
)
    requires
        manifest_wf(old_entries),
        0 <= idx <= old_entries.len(),
        forall|j2: int| 0 <= j2 < idx ==> lex_lt(old_entries[j2].dest@, e.dest@),
        idx < old_entries.len() ==> lex_lt(e.dest@, old_entries[idx].dest@),
        s == old_entries.insert(idx, e),
        0 <= j < k < s.len(),
    ensures
        lex_lt(s[j].dest@, s[k].dest@),
{
    assert(s.len() == old_entries.len() + 1);
    if k < idx {
        assert(lex_lt(old_entries[j].dest@, old_entries[k].dest@));
    } else if k == idx {
        assert(lex_lt(old_entries[j].dest@, e.dest@));
    } else if j < idx {
        assert(s[j] == old_entries[j]);
        assert(s[k] == old_entries[k - 1]);
        assert(lex_lt(old_entries[j].dest@, old_entries[k - 1].dest@));
    } else if j == idx {
        assert(s[k] == old_entries[k - 1]);
        assert(lex_lt(e.dest@, old_entries[idx].dest@));
        if idx < k - 1 {
            assert(lex_lt(old_entries[idx].dest@, old_entries[k - 1].dest@));
            lemma_lex_lt_trans(e.dest@, old_entries[idx].dest@, old_entries[k - 1].dest@);
        }
    } else {
        assert(s[j] == old_entries[j - 1]);
        assert(s[k] == old_entries[k - 1]);
        assert(lex_lt(old_entries[j - 1].dest@, old_entries[k - 1].dest@));
    }
}

/// Strict order composes: `a < b` and `b < c` give `a < c`.
proof fn lemma_lex_lt_trans(a: Seq<u8>, b: Seq<u8>, c: Seq<u8>)
    requires
        lex_lt(a, b),
        lex_lt(b, c),
    ensures
        lex_lt(a, c),
{
    lemma_lex_le_trans(a, b, c);
    if a == c {
        lemma_lex_le_antisym(a, b);
    }
}

/// After inserting a fresh entry at `idx`, lookups see the new digest under
/// its name and the old entries elsewhere.
proof fn lemma_lookup_after_insert(
    old_entries: Seq<ManifestEntry>,
    s: Seq<ManifestEntry>,
    idx: int,
    dest: Seq<u8>,
    dg: Seq<u8>,
)
    requires
        manifest_wf(old_entries),
        0 <= idx <= old_entries.len(),
        s.len() == old_entries.len() + 1,
        s[idx].dest@ == dest,
        s[idx].digest_hex@ == dg,
        forall|j: int| 0 <= j < idx ==> s[j] == old_entries[j],
        forall|j: int| idx < j < s.len() ==> s[j] == old_entries[j - 1],
        forall|j: int| 0 <= j < old_entries.len() ==> old_entries[j].dest@ != dest,
    ensures
        forall|d: Seq<u8>, g: Seq<u8>|
            #[trigger] has_entry(s, d, g) <==> if d == dest {
                g == dg
            } else {
                has_entry(old_entries, d, g)
            },
{
    assert forall|d: Seq<u8>, g: Seq<u8>| #[trigger] has_entry(s, d, g) implies (if d == dest {
        g == dg
    } else {
        has_entry(old_entries, d, g)
    }) by {
        let i = choose|i: int|
            0 <= i < s.len() && s[i].dest@ == d && s[i].digest_hex@ == g;
        if i < idx {
            assert(old_entries[i].dest@ == d && old_entries[i].digest_hex@ == g);
        } else if i > idx {
            assert(old_entries[i - 1].dest@ == d && old_entries[i - 1].digest_hex@ == g);
        }
    }
    assert forall|d: Seq<u8>, g: Seq<u8>| (if d == dest {
        g == dg
    } else {
        has_entry(old_entries, d, g)
    }) implies #[trigger] has_entry(s, d, g) by {
        if d == dest {
            assert(s[idx].dest@ == d && s[idx].digest_hex@ == g);
        } else {
            let i = choose|i: int|
                0 <= i < old_entries.len() && old_entries[i].dest@ == d
                    && old_entries[i].digest_hex@ == g;
            if i < idx {
                assert(s[i].dest@ == d && s[i].digest_hex@ == g);
            } else {
                assert(s[i + 1].dest@ == d && s[i + 1].digest_hex@ == g);
            }
        }
    }
}

/// A failure kind of its own: the manifest fetched back from the server
/// differs from the one sent, a data-corruption condition.
#[derive(Clone, Copy, PartialEq, Eq, Structural, Debug)]
pub enum IntegrityError {
    ManifestMismatch,
}

/// Compare the locally computed manifest with the bytes fetched back from
/// the server; any difference is an integrity violation.
pub fn check_round_trip(local: &Vec<u8>, fetched: &Vec<u8>) -> (r: Result<(), IntegrityError>)
    ensures
        r is Ok <==> local@ == fetched@,
        r is Err ==> r == Result::<(), IntegrityError>::Err(IntegrityError::ManifestMismatch),
{
    if eq_bytes(local, fetched) {
        Ok(())
    } else {
        Err(IntegrityError::ManifestMismatch)
    }
}

} // verus!
