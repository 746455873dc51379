use vstd::prelude::*;
use rand::rngs::ThreadRng;
use super::state::PieceStatus;
use crate::peer::bitfield::{has_bit, lemma_with_bit, set_bit, test_bit};
use crate::random::random_below;

verus! {

/// Whether `count` pieces of `piece_length` bytes lay out `total` bytes:
/// the pieces cover the bytes, and the last piece holds at least one of them.
/// The number of pieces and the length of a piece fit 32 bits, as the wire
/// protocol writes them.
pub open spec fn layout_ok(count: int, piece_length: int, total: int) -> bool {
    &&& 0 < piece_length <= u32::MAX
    &&& 0 <= count <= u32::MAX
    &&& 0 <= total
    &&& count * piece_length >= total
    &&& (count - 1) * piece_length < total
}

/// The length of piece `i` of `count`: `piece_length`, but for the last
/// piece, which holds what is left of the `total` bytes.
pub open spec fn piece_len(i: int, count: int, piece_length: int, total: int) -> int {
    if i + 1 == count {
        (total - 1) % piece_length + 1
    } else {
        piece_length
    }
}

/// The lengths of the pieces below `n` that are `Have`, added up.
pub open spec fn have_bytes(status: Seq<PieceStatus>, piece_length: int, total: int, n: int) -> int
    decreases n,
{
    if n <= 0 {
        0
    } else {
        have_bytes(status, piece_length, total, n - 1) + if status[n - 1] == PieceStatus::Have {
            piece_len(n - 1, status.len() as int, piece_length, total)
        } else {
            0
        }
    }
}

/// The number of pieces below `n` that are `Have`.
pub open spec fn have_count(status: Seq<PieceStatus>, n: int) -> int
    decreases n,
{
    if n <= 0 {
        0
    } else {
        have_count(status, n - 1) + if status[n - 1] == PieceStatus::Have {
            1int
        } else {
            0int
        }
    }
}

/// Whether every piece is `Have`.
pub open spec fn all_have(status: Seq<PieceStatus>) -> bool {
    forall|i: int| 0 <= i < status.len() ==> status[i] == PieceStatus::Have
}

/// Whether a session may ask a peer with the pieces `peer_bits` for piece
/// `i`: the piece is `Missing` and the peer has it.
pub open spec fn is_available(status: Seq<PieceStatus>, peer_bits: Seq<u8>, i: int) -> bool {
    0 <= i < status.len() && status[i] == PieceStatus::Missing && has_bit(peer_bits, i)
}

/// Whether `bits` is the bitfield of the pieces: as many bytes as hold one
/// bit for every piece, the bit of a piece set exactly where the piece is
/// `Have`, the bits after the last piece zero.
pub open spec fn is_bitfield_of(bits: Seq<u8>, status: Seq<PieceStatus>) -> bool {
    &&& bits.len() == (status.len() + 7) / 8
    &&& forall|i: int|
        0 <= i < 8 * bits.len() ==> has_bit(bits, i) == (i < status.len() && status[i]
            == PieceStatus::Have)
}

/// The state of the pieces of one torrent, with the byte counters.
#[derive(Debug)]
pub struct PieceMap {
    /// The status of each piece.
    pub status: Vec<PieceStatus>,
    /// The length of every piece but the last.
    pub piece_length: u64,
    /// The length of the content.
    pub total_length: u64,
    /// The bytes of the pieces that are `Have`.
    pub downloaded_bytes: u64,
    /// The bytes served to peers.
    pub uploaded_bytes: u64,
}

/// The last piece holds what the pieces before it leave of the content:
/// at least one byte and at most a full piece.
pub proof fn lemma_last_piece(count: int, piece_length: int, total: int)
    requires
        layout_ok(count, piece_length, total),
        count > 0,
    ensures
        piece_len(count - 1, count, piece_length, total) == total - (count - 1) * piece_length,
        1 <= piece_len(count - 1, count, piece_length, total) <= piece_length,
{
    let r = total - 1 - (count - 1) * piece_length;
    assert(count * piece_length == (count - 1) * piece_length + piece_length) by (nonlinear_arith);
    vstd::arithmetic::div_mod::lemma_fundamental_div_mod_converse(
        total - 1,
        piece_length,
        count - 1,
        r,
    );
}

/// The offset of a piece and its length lie within the content.
pub proof fn lemma_piece_within(i: int, count: int, piece_length: int, total: int)
    requires
        layout_ok(count, piece_length, total),
        0 <= i < count,
    ensures
        1 <= piece_len(i, count, piece_length, total) <= piece_length,
        0 <= i * piece_length,
        i * piece_length + piece_len(i, count, piece_length, total) <= total,
{
    lemma_last_piece(count, piece_length, total);
    assert(0 <= i * piece_length) by (nonlinear_arith)
        requires
            0 <= i,
            piece_length > 0,
    ;
    if i + 1 < count {
        assert((i + 1) * piece_length <= (count - 1) * piece_length) by (nonlinear_arith)
            requires
                i + 1 <= count - 1,
                piece_length > 0,
        ;
        assert((i + 1) * piece_length == i * piece_length + piece_length) by (nonlinear_arith);
    }
}

/// The pieces below `n` that are `Have` hold no more bytes than all the
/// pieces below `n`.
pub proof fn lemma_have_bytes_bound(status: Seq<PieceStatus>, piece_length: int, total: int, n: int)
    requires
        layout_ok(status.len() as int, piece_length, total),
        0 <= n <= status.len(),
    ensures
        0 <= have_bytes(status, piece_length, total, n) <= n * piece_length,
        0 <= have_bytes(status, piece_length, total, n) <= total,
    decreases n,
{
    if n > 0 {
        lemma_have_bytes_bound(status, piece_length, total, n - 1);
        lemma_piece_within(n - 1, status.len() as int, piece_length, total);
        assert(n * piece_length == (n - 1) * piece_length + piece_length) by (nonlinear_arith);
        if n == status.len() {
            lemma_last_piece(status.len() as int, piece_length, total);
        } else {
            assert(n * piece_length <= (status.len() - 1) * piece_length) by (nonlinear_arith)
                requires
                    n <= status.len() - 1,
                    piece_length > 0,
            ;
        }
    }
}

/// Changing the status of one piece changes the bytes that are `Have` by
/// the length of that piece, where the change makes or unmakes a `Have`.
pub proof fn lemma_have_bytes_update(
    status: Seq<PieceStatus>,
    piece_length: int,
    total: int,
    i: int,
    s: PieceStatus,
    n: int,
)
    requires
        0 <= i < status.len(),
        0 <= n <= status.len(),
    ensures
        have_bytes(status.update(i, s), piece_length, total, n) == have_bytes(
            status,
            piece_length,
            total,
            n,
        ) + if i < n {
            (if s == PieceStatus::Have {
                piece_len(i, status.len() as int, piece_length, total)
            } else {
                0
            }) - (if status[i] == PieceStatus::Have {
                piece_len(i, status.len() as int, piece_length, total)
            } else {
                0
            })
        } else {
            0
        },
    decreases n,
{
    if n > 0 {
        lemma_have_bytes_update(status, piece_length, total, i, s, n - 1);
    }
}

/// The pieces that are `Have` are between none and all of them, and they
/// are all of them exactly where every piece is `Have`.
pub proof fn lemma_have_count_all(status: Seq<PieceStatus>, n: int)
    requires
        0 <= n <= status.len(),
    ensures
        0 <= have_count(status, n) <= n,
        have_count(status, n) == n <==> forall|i: int|
            0 <= i < n ==> status[i] == PieceStatus::Have,
    decreases n,
{
    if n > 0 {
        lemma_have_count_all(status, n - 1);
        if have_count(status, n) == n {
            assert forall|i: int| 0 <= i < n implies status[i] == PieceStatus::Have by {
                if i < n - 1 {
                }
            }
        }
    }
}

impl PieceMap {
    /// Whether the map is consistent: its pieces lay out its content, and
    /// `downloaded_bytes` is the sum of the lengths of the pieces that are
    /// `Have`.
    pub open spec fn wf(&self) -> bool {
        &&& layout_ok(self.status@.len() as int, self.piece_length as int, self.total_length as int)
        &&& self.downloaded_bytes == have_bytes(
            self.status@,
            self.piece_length as int,
            self.total_length as int,
            self.status@.len() as int,
        )
    }

    /// The length of piece `i`.
    pub open spec fn spec_piece_len(&self, i: int) -> int {
        piece_len(i, self.status@.len() as int, self.piece_length as int, self.total_length as int)
    }

    /// A map of `piece_count` pieces, all `Missing`, with both counters at
    /// zero; none where the pieces do not lay out the content.
    pub fn new(piece_count: usize, piece_length: u64, total_length: u64) -> (r: Option<PieceMap>)
        ensures
            match r {
                Some(map) => {
                    &&& layout_ok(piece_count as int, piece_length as int, total_length as int)
                    &&& map.wf()
                    &&& map.status@.len() == piece_count
                    &&& forall|i: int| 0 <= i < piece_count ==> map.status@[i] == PieceStatus::Missing
                    &&& map.piece_length == piece_length
                    &&& map.total_length == total_length
                    &&& map.downloaded_bytes == 0
                    &&& map.uploaded_bytes == 0
                },
                None => !layout_ok(piece_count as int, piece_length as int, total_length as int),
            },
    {
        if piece_length == 0 || piece_length > u32::MAX as u64 || piece_count > u32::MAX as usize {
            return None;
        }
        assert(piece_count * piece_length <= 0xffff_ffff_ffff_ffff * 0xffff_ffff_ffff_ffff)
            by (nonlinear_arith)
            requires
                0 <= piece_count <= 0xffff_ffff_ffff_ffff,
                0 <= piece_length <= 0xffff_ffff_ffff_ffff,
        ;
        let covered: u128 = piece_count as u128 * piece_length as u128;
        if covered < total_length as u128 {
            return None;
        }
        if piece_count > 0 {
            assert((piece_count - 1) * piece_length <= 0xffff_ffff_ffff_ffff * 0xffff_ffff_ffff_ffff)
                by (nonlinear_arith)
                requires
                    0 <= piece_count - 1 <= 0xffff_ffff_ffff_ffff,
                    0 <= piece_length <= 0xffff_ffff_ffff_ffff,
            ;
            let before: u128 = (piece_count - 1) as u128 * piece_length as u128;
            if before >= total_length as u128 {
                return None;
            }
        } else {
            assert((piece_count - 1) * piece_length < 0) by (nonlinear_arith)
                requires
                    piece_count == 0,
                    piece_length > 0,
            ;
        }
        let mut status: Vec<PieceStatus> = Vec::new();
        let mut i: usize = 0;
        while i < piece_count
            invariant
                i <= piece_count,
                status@.len() == i,
                forall|j: int| 0 <= j < i ==> status@[j] == PieceStatus::Missing,
            decreases piece_count - i,
        {
            status.push(PieceStatus::Missing);
            i = i + 1;
        }
        proof {
            lemma_none_have(status@, piece_length as int, total_length as int, piece_count as int);
        }
        Some(
            PieceMap {
                status,
                piece_length,
                total_length,
                downloaded_bytes: 0,
                uploaded_bytes: 0,
            },
        )
    }

    /// Whether the map is consistent.
    pub fn is_consistent(&self) -> (r: bool)
        ensures
            r == self.wf(),
    {
        let count = self.status.len();
        if self.piece_length == 0 || self.piece_length > u32::MAX as u64 || count
            > u32::MAX as usize {
            return false;
        }
        assert(count * self.piece_length <= 0xffff_ffff * 0xffff_ffff) by (nonlinear_arith)
            requires
                0 <= count <= 0xffff_ffff,
                0 <= self.piece_length <= 0xffff_ffff,
        ;
        if (count as u64) * self.piece_length < self.total_length {
            return false;
        }
        if count > 0 {
            assert((count - 1) * self.piece_length <= 0xffff_ffff * 0xffff_ffff)
                by (nonlinear_arith)
                requires
                    0 <= count - 1 <= 0xffff_ffff,
                    0 <= self.piece_length <= 0xffff_ffff,
            ;
            if ((count - 1) as u64) * self.piece_length >= self.total_length {
                return false;
            }
        } else {
            assert((count - 1) * self.piece_length < 0) by (nonlinear_arith)
                requires
                    count == 0,
                    self.piece_length > 0,
            ;
        }
        let mut sum: u64 = 0;
        let mut i: usize = 0;
        while i < count
            invariant
                i <= count,
                count == self.status@.len(),
                layout_ok(count as int, self.piece_length as int, self.total_length as int),
                sum == have_bytes(
                    self.status@,
                    self.piece_length as int,
                    self.total_length as int,
                    i as int,
                ),
            decreases count - i,
        {
            proof {
                lemma_have_bytes_bound(
                    self.status@,
                    self.piece_length as int,
                    self.total_length as int,
                    i + 1,
                );
                lemma_piece_within(
                    i as int,
                    count as int,
                    self.piece_length as int,
                    self.total_length as int,
                );
            }
            if self.status[i] == PieceStatus::Have {
                let len = if i == count - 1 {
                    (self.total_length - 1) % self.piece_length + 1
                } else {
                    self.piece_length
                };
                sum = sum + len;
            }
            i = i + 1;
        }
        sum == self.downloaded_bytes
    }

    /// The length of piece `index`: `piece_length`, but for the last piece,
    /// which is `((total_length - 1) mod piece_length) + 1` bytes long.
    pub fn piece_len(&self, index: usize) -> (len: u64)
        requires
            self.wf(),
            index < self.status@.len(),
        ensures
            len == self.spec_piece_len(index as int),
            1 <= len <= self.piece_length,
    {
        proof {
            lemma_piece_within(
                index as int,
                self.status@.len() as int,
                self.piece_length as int,
                self.total_length as int,
            );
        }
        if index == self.status.len() - 1 {
            (self.total_length - 1) % self.piece_length + 1
        } else {
            self.piece_length
        }
    }

    /// The offset of piece `index` in the content: `index * piece_length`.
    pub fn piece_offset(&self, index: usize) -> (offset: u64)
        requires
            self.wf(),
            index < self.status@.len(),
        ensures
            offset == index * self.piece_length,
            offset + self.spec_piece_len(index as int) <= self.total_length,
    {
        proof {
            lemma_piece_within(
                index as int,
                self.status@.len() as int,
                self.piece_length as int,
                self.total_length as int,
            );
        }
        (index as u64) * self.piece_length
    }

    /// The pieces that a session may ask a peer with the pieces `peer_bits`
    /// for: those that are `Missing` and that the peer has, in increasing
    /// order.
    pub fn available(&self, peer_bits: &[u8]) -> (r: Vec<usize>)
        ensures
            forall|k: int| 0 <= k < r@.len() ==> is_available(self.status@, peer_bits@, #[trigger] r@[k] as int),
            forall|i: int|
                is_available(self.status@, peer_bits@, i) ==> exists|k: int|
                    0 <= k < r@.len() && #[trigger] r@[k] == i,
            forall|k: int, l: int| 0 <= k < l < r@.len() ==> r@[k] < r@[l],
    {
        let mut r: Vec<usize> = Vec::new();
        let mut i: usize = 0;
        while i < self.status.len()
            invariant
                i <= self.status@.len(),
                forall|k: int| 0 <= k < r@.len() ==> is_available(self.status@, peer_bits@, #[trigger] r@[k] as int) && r@[k] < i,
                forall|j: int|
                    0 <= j < i && is_available(self.status@, peer_bits@, j) ==> exists|k: int|
                        0 <= k < r@.len() && #[trigger] r@[k] == j,
                forall|k: int, l: int| 0 <= k < l < r@.len() ==> r@[k] < r@[l],
            decreases self.status@.len() - i,
        {
            if self.status[i] == PieceStatus::Missing && test_bit(peer_bits, i) {
                let ghost before = r@;
                r.push(i);
                proof {
                    assert forall|j: int|
                        0 <= j < i + 1 && is_available(self.status@, peer_bits@, j) implies exists|k: int|
                            0 <= k < r@.len() && #[trigger] r@[k] == j by {
                        if j < i {
                            let k = choose|k: int| 0 <= k < before.len() && #[trigger] before[k] == j;
                            assert(r@[k] == j);
                        } else {
                            assert(r@[before.len() as int] == j);
                        }
                    }
                }
            }
            i = i + 1;
        }
        r
    }

    /// Claims piece `candidates[choice]` for a session: the piece goes from
    /// `Missing` to `InProgress`. Nothing is claimed where `choice` is no
    /// index of `candidates`, or the piece is not `Missing`.
    pub fn claim(&mut self, candidates: &Vec<usize>, choice: usize) -> (r: Option<usize>)
        requires
            old(self).wf(),
        ensures
            final(self).wf(),
            final(self).piece_length == old(self).piece_length,
            final(self).total_length == old(self).total_length,
            final(self).downloaded_bytes == old(self).downloaded_bytes,
            final(self).uploaded_bytes == old(self).uploaded_bytes,
            choice < candidates@.len() && candidates@[choice as int] < old(self).status@.len()
                && old(self).status@[candidates@[choice as int] as int] == PieceStatus::Missing ==> {
                &&& r == Some(candidates@[choice as int])
                &&& final(self).status@ == old(self).status@.update(
                    candidates@[choice as int] as int,
                    PieceStatus::InProgress,
                )
            },
            !(choice < candidates@.len() && candidates@[choice as int] < old(self).status@.len()
                && old(self).status@[candidates@[choice as int] as int] == PieceStatus::Missing)
                ==> r.is_none() && final(self).status@ == old(self).status@,
    {
        if choice >= candidates.len() {
            return None;
        }
        let index = candidates[choice];
        if index >= self.status.len() || self.status[index] != PieceStatus::Missing {
            return None;
        }
        proof {
            lemma_have_bytes_update(
                self.status@,
                self.piece_length as int,
                self.total_length as int,
                index as int,
                PieceStatus::InProgress,
                self.status@.len() as int,
            );
        }
        self.status[index] = PieceStatus::InProgress;
        Some(index)
    }

    /// Claims for a session one of the pieces that are `Missing` and that a
    /// peer with the pieces `peer_bits` has, picked at random: the piece goes
    /// from `Missing` to `InProgress`. Nothing is claimed where there is no
    /// such piece.
    pub fn claim_random_available(&mut self, peer_bits: &[u8], rng: &mut ThreadRng) -> (r: Option<usize>)
        requires
            old(self).wf(),
        ensures
            final(self).wf(),
            final(self).piece_length == old(self).piece_length,
            final(self).total_length == old(self).total_length,
            final(self).downloaded_bytes == old(self).downloaded_bytes,
            final(self).uploaded_bytes == old(self).uploaded_bytes,
            match r {
                Some(i) => {
                    &&& is_available(old(self).status@, peer_bits@, i as int)
                    &&& final(self).status@ == old(self).status@.update(
                        i as int,
                        PieceStatus::InProgress,
                    )
                },
                None => {
                    &&& forall|i: int| !is_available(old(self).status@, peer_bits@, i)
                    &&& final(self).status@ == old(self).status@
                },
            },
    {
        let candidates = self.available(peer_bits);
        if candidates.len() == 0 {
            assert forall|i: int| !is_available(self.status@, peer_bits@, i) by {
                if is_available(self.status@, peer_bits@, i) {
                    let k = choose|k: int| 0 <= k < candidates@.len() && #[trigger] candidates@[k] == i;
                }
            }
            return None;
        }
        let choice = random_below(rng, candidates.len());
        assert(is_available(self.status@, peer_bits@, candidates@[choice as int] as int));
        self.claim(&candidates, choice)
    }

    /// Gives piece `index` back: it goes from `InProgress` to `Missing`.
    /// A piece in another state, or no piece of the map, is left as it is.
    pub fn release(&mut self, index: usize)
        requires
            old(self).wf(),
        ensures
            final(self).wf(),
            final(self).piece_length == old(self).piece_length,
            final(self).total_length == old(self).total_length,
            final(self).downloaded_bytes == old(self).downloaded_bytes,
            final(self).uploaded_bytes == old(self).uploaded_bytes,
            final(self).status@ == if index < old(self).status@.len() && old(
                self,
            ).status@[index as int] == PieceStatus::InProgress {
                old(self).status@.update(index as int, PieceStatus::Missing)
            } else {
                old(self).status@
            },
    {
        if index < self.status.len() && self.status[index] == PieceStatus::InProgress {
            proof {
                lemma_have_bytes_update(
                    self.status@,
                    self.piece_length as int,
                    self.total_length as int,
                    index as int,
                    PieceStatus::Missing,
                    self.status@.len() as int,
                );
            }
            self.status[index] = PieceStatus::Missing;
        }
    }

    /// Makes piece `index` a `Have` and adds its length to
    /// `downloaded_bytes`, where `from` is its status; returns whether it
    /// did.
    fn set_have(&mut self, index: usize, from: PieceStatus) -> (r: bool)
        requires
            old(self).wf(),
            from != PieceStatus::Have,
        ensures
            final(self).wf(),
            final(self).piece_length == old(self).piece_length,
            final(self).total_length == old(self).total_length,
            final(self).uploaded_bytes == old(self).uploaded_bytes,
            r == (index < old(self).status@.len() && old(self).status@[index as int] == from),
            r ==> final(self).status@ == old(self).status@.update(index as int, PieceStatus::Have)
                && final(self).downloaded_bytes == old(self).downloaded_bytes + old(
                self,
            ).spec_piece_len(index as int),
            !r ==> final(self).status@ == old(self).status@ && final(self).downloaded_bytes == old(
                self,
            ).downloaded_bytes,
    {
        if index < self.status.len() && self.status[index] == from {
            let len = self.piece_len(index);
            proof {
                lemma_have_bytes_update(
                    self.status@,
                    self.piece_length as int,
                    self.total_length as int,
                    index as int,
                    PieceStatus::Have,
                    self.status@.len() as int,
                );
                lemma_have_bytes_bound(
                    self.status@.update(index as int, PieceStatus::Have),
                    self.piece_length as int,
                    self.total_length as int,
                    self.status@.len() as int,
                );
            }
            self.status[index] = PieceStatus::Have;
            self.downloaded_bytes = self.downloaded_bytes + len;
            true
        } else {
            false
        }
    }

    /// Records that piece `index` has been verified and stored: it goes from
    /// `InProgress` to `Have`, and its length is added to `downloaded_bytes`.
    /// A piece in another state, or no piece of the map, is left as it is.
    /// Returns whether every piece is now `Have`.
    pub fn complete(&mut self, index: usize) -> (done: bool)
        requires
            old(self).wf(),
        ensures
            final(self).wf(),
            final(self).piece_length == old(self).piece_length,
            final(self).total_length == old(self).total_length,
            final(self).uploaded_bytes == old(self).uploaded_bytes,
            index < old(self).status@.len() && old(self).status@[index as int]
                == PieceStatus::InProgress ==> {
                &&& final(self).status@ == old(self).status@.update(
                    index as int,
                    PieceStatus::Have,
                )
                &&& final(self).downloaded_bytes == old(self).downloaded_bytes + old(
                    self,
                ).spec_piece_len(index as int)
            },
            !(index < old(self).status@.len() && old(self).status@[index as int]
                == PieceStatus::InProgress) ==> {
                &&& final(self).status@ == old(self).status@
                &&& final(self).downloaded_bytes == old(self).downloaded_bytes
            },
            done == all_have(final(self).status@),
    {
        self.set_have(index, PieceStatus::InProgress);
        self.is_complete()
    }

    /// Records that piece `index` was found whole on disk before any session
    /// ran: it goes from `Missing` to `Have`, and its length is added to
    /// `downloaded_bytes`. A piece in another state, or no piece of the map,
    /// is left as it is.
    pub fn mark_existing(&mut self, index: usize)
        requires
            old(self).wf(),
        ensures
            final(self).wf(),
            final(self).piece_length == old(self).piece_length,
            final(self).total_length == old(self).total_length,
            final(self).uploaded_bytes == old(self).uploaded_bytes,
            index < old(self).status@.len() && old(self).status@[index as int]
                == PieceStatus::Missing ==> {
                &&& final(self).status@ == old(self).status@.update(
                    index as int,
                    PieceStatus::Have,
                )
                &&& final(self).downloaded_bytes == old(self).downloaded_bytes + old(
                    self,
                ).spec_piece_len(index as int)
            },
            !(index < old(self).status@.len() && old(self).status@[index as int]
                == PieceStatus::Missing) ==> {
                &&& final(self).status@ == old(self).status@
                &&& final(self).downloaded_bytes == old(self).downloaded_bytes
            },
    {
        self.set_have(index, PieceStatus::Missing);
    }

    /// Whether every piece is `Have`.
    pub fn is_complete(&self) -> (r: bool)
        ensures
            r == all_have(self.status@),
    {
        let mut i: usize = 0;
        while i < self.status.len()
            invariant
                i <= self.status@.len(),
                forall|j: int| 0 <= j < i ==> self.status@[j] == PieceStatus::Have,
            decreases self.status@.len() - i,
        {
            if self.status[i] != PieceStatus::Have {
                return false;
            }
            i = i + 1;
        }
        true
    }

    /// Whether we have the piece of this index.
    pub fn has(&self, index: usize) -> (r: bool)
        ensures
            r == (index < self.status@.len() && self.status@[index as int] == PieceStatus::Have),
    {
        index < self.status.len() && self.status[index] == PieceStatus::Have
    }

    /// The number of pieces that are `Have`, and the number of pieces.
    pub fn snapshot_counts(&self) -> (r: (usize, usize))
        ensures
            r.0 == have_count(self.status@, self.status@.len() as int),
            r.1 == self.status@.len(),
            r.0 <= r.1,
            (r.0 == r.1) == all_have(self.status@),
    {
        proof {
            lemma_have_count_all(self.status@, self.status@.len() as int);
        }
        let mut have: usize = 0;
        let mut i: usize = 0;
        while i < self.status.len()
            invariant
                i <= self.status@.len(),
                have == have_count(self.status@, i as int),
                have <= i,
            decreases self.status@.len() - i,
        {
            if self.status[i] == PieceStatus::Have {
                have = have + 1;
            }
            i = i + 1;
        }
        (have, self.status.len())
    }

    /// The pieces that are `Have`, one bit each, for the `Bitfield` message:
    /// as many bytes as hold one bit for every piece, the bit of a piece set
    /// exactly where the piece is `Have`, the bits after the last piece zero.
    pub fn bitfield(&self) -> (bits: Vec<u8>)
        ensures
            is_bitfield_of(bits@, self.status@),
    {
        let count = self.status.len();
        let size: usize = count / 8 + if count % 8 == 0 {
            0
        } else {
            1
        };
        let mut bits: Vec<u8> = Vec::new();
        let mut k: usize = 0;
        while k < size
            invariant
                k <= size,
                bits@.len() == k,
                forall|j: int| 0 <= j < k ==> bits@[j] == 0u8,
            decreases size - k,
        {
            bits.push(0);
            k = k + 1;
        }
        proof {
            assert forall|i: int| 0 <= i < 8 * bits@.len() implies !has_bit(bits@, i) by {
                crate::peer::bitfield::lemma_zero_bits((i % 8) as u8);
            }
        }
        let mut i: usize = 0;
        while i < count
            invariant
                i <= count,
                count == self.status@.len(),
                bits@.len() == size,
                size == (count + 7) / 8,
                forall|j: int|
                    0 <= j < 8 * bits@.len() ==> has_bit(bits@, j) == (j < i && self.status@[j]
                        == PieceStatus::Have),
            decreases count - i,
        {
            if self.status[i] == PieceStatus::Have {
                let ghost before = bits@;
                set_bit(&mut bits, i);
                proof {
                    assert forall|j: int| 0 <= j < 8 * bits@.len() implies has_bit(bits@, j) == (j
                        < i + 1 && self.status@[j] == PieceStatus::Have) by {
                        lemma_with_bit(before, i as int, j);
                    }
                    lemma_with_bit(before, i as int, 0);
                }
            }
            i = i + 1;
        }
        bits
    }

    /// Adds `n` bytes to `uploaded_bytes`; the counter stays at its greatest
    /// value once it is reached.
    pub fn add_uploaded(&mut self, n: u64)
        requires
            old(self).wf(),
        ensures
            final(self).wf(),
            final(self).status@ == old(self).status@,
            final(self).piece_length == old(self).piece_length,
            final(self).total_length == old(self).total_length,
            final(self).downloaded_bytes == old(self).downloaded_bytes,
            final(self).uploaded_bytes == if old(self).uploaded_bytes + n > u64::MAX {
                u64::MAX
            } else {
                (old(self).uploaded_bytes + n) as u64
            },
    {
        if n > u64::MAX - self.uploaded_bytes {
            self.uploaded_bytes = u64::MAX;
        } else {
            self.uploaded_bytes = self.uploaded_bytes + n;
        }
    }
}

/// Where no piece below `n` is `Have`, no byte is.
pub proof fn lemma_none_have(status: Seq<PieceStatus>, piece_length: int, total: int, n: int)
    requires
        0 <= n <= status.len(),
        forall|j: int| 0 <= j < n ==> status[j] == PieceStatus::Missing,
    ensures
        have_bytes(status, piece_length, total, n) == 0,
    decreases n,
{
    if n > 0 {
        lemma_none_have(status, piece_length, total, n - 1);
    }
}

} // verus!
