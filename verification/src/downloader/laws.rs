//! What holds of a download as a whole, whatever the sessions do: the bytes
//! counted are those of the pieces that we have, a piece under way belongs
//! to one session, and what is stored matches the manifest.
use vstd::prelude::*;
use super::piece_map::{PieceMap, all_have, have_bytes, layout_ok, lemma_piece_within, piece_len};
use crate::buffer::with_block;
use super::session::{PeerSession, Reaction, Selection, piece_verified};
use crate::peer::message::Message;
use super::state::PieceStatus;
use crate::bencoding::info_hash::sha1_digest;

verus! {

/// In a consistent map, `downloaded_bytes` is the sum of the lengths of the
/// pieces that are `Have`, and it is at most the length of the content.
///
/// `PieceMap::new` makes a consistent map, and every function that changes
/// a map keeps it consistent, so this holds at all times.
pub proof fn lemma_downloaded_bytes(map: PieceMap)
    requires
        map.wf(),
    ensures
        map.downloaded_bytes == have_bytes(
            map.status@,
            map.piece_length as int,
            map.total_length as int,
            map.status@.len() as int,
        ),
        map.downloaded_bytes <= map.total_length,
{
    super::piece_map::lemma_have_bytes_bound(
        map.status@,
        map.piece_length as int,
        map.total_length as int,
        map.status@.len() as int,
    );
}

/// Whether the pieces that the sessions hold are held rightly: `holders[s]`
/// is the piece that session `s` holds, if it holds one; a piece that is
/// held is `InProgress`, and no two sessions hold the same piece.
pub open spec fn exclusive(status: Seq<PieceStatus>, holders: Seq<Option<usize>>) -> bool {
    &&& forall|s: int|
        0 <= s < holders.len() && (#[trigger] holders[s]) is Some ==> holders[s].unwrap()
            < status.len() && status[holders[s].unwrap() as int] == PieceStatus::InProgress
    &&& forall|s: int, t: int|
        0 <= s < holders.len() && 0 <= t < holders.len() && s != t && (#[trigger] holders[s])
            is Some ==> holders[s] != #[trigger] holders[t]
}

/// At most one session holds a piece.
pub proof fn lemma_one_holder(
    status: Seq<PieceStatus>,
    holders: Seq<Option<usize>>,
    i: usize,
    s: int,
    t: int,
)
    requires
        exclusive(status, holders),
        0 <= s < holders.len(),
        0 <= t < holders.len(),
        holders[s] == Some(i),
        holders[t] == Some(i),
    ensures
        s == t,
{
}

/// A session that holds no piece and claims one that is `Missing` leaves
/// the pieces held rightly: no other session holds the piece that it claims.
pub proof fn lemma_claim_exclusive(
    status: Seq<PieceStatus>,
    holders: Seq<Option<usize>>,
    s: int,
    i: usize,
)
    requires
        exclusive(status, holders),
        0 <= s < holders.len(),
        holders[s] is None,
        i < status.len(),
        status[i as int] == PieceStatus::Missing,
    ensures
        exclusive(status.update(i as int, PieceStatus::InProgress), holders.update(s, Some(i))),
{
    let status2 = status.update(i as int, PieceStatus::InProgress);
    let holders2 = holders.update(s, Some(i));
    assert forall|a: int| 0 <= a < holders2.len() && (#[trigger] holders2[a]) is Some implies holders2[a].unwrap()
        < status2.len() && status2[holders2[a].unwrap() as int] == PieceStatus::InProgress by {
        if a != s {
            assert(holders2[a] == holders[a]);
        }
    }
    assert forall|a: int, b: int|
        0 <= a < holders2.len() && 0 <= b < holders2.len() && a != b && (#[trigger] holders2[a])
            is Some implies holders2[a] != #[trigger] holders2[b] by {
        if a != s {
            assert(holders2[a] == holders[a]);
        }
        if b != s {
            assert(holders2[b] == holders[b]);
        }
    }
}

/// A session that lets go of the piece that it holds, whatever the piece
/// becomes, leaves the pieces held rightly. This covers a piece given back,
/// which becomes `Missing`, and a piece stored, which becomes `Have`.
pub proof fn lemma_let_go_exclusive(
    status: Seq<PieceStatus>,
    holders: Seq<Option<usize>>,
    s: int,
    to: PieceStatus,
)
    requires
        exclusive(status, holders),
        0 <= s < holders.len(),
        holders[s] is Some,
    ensures
        exclusive(status.update(holders[s].unwrap() as int, to), holders.update(s, None)),
{
    let i = holders[s].unwrap();
    let status2 = status.update(i as int, to);
    let holders2 = holders.update(s, None);
    assert forall|a: int| 0 <= a < holders2.len() && (#[trigger] holders2[a]) is Some implies holders2[a].unwrap()
        < status2.len() && status2[holders2[a].unwrap() as int] == PieceStatus::InProgress by {
        assert(a != s);
        assert(holders2[a] == holders[a]);
        assert(holders[a] != holders[s]);
    }
    assert forall|a: int, b: int|
        0 <= a < holders2.len() && 0 <= b < holders2.len() && a != b && (#[trigger] holders2[a])
            is Some implies holders2[a] != #[trigger] holders2[b] by {
        assert(holders2[a] == holders[a]);
        if b != s {
            assert(holders2[b] == holders[b]);
        }
    }
}

/// Handling a `Piece` message leaves the pieces held rightly: the session
/// goes on holding its piece while blocks are to come and while the piece is
/// being stored, and lets go of it where it does not match its digest.
pub proof fn lemma_piece_handled_exclusive(
    before: PeerSession,
    map: PieceMap,
    index: u32,
    begin: u32,
    block: Seq<u8>,
    hashes: Seq<[u8; 20]>,
    r: Reaction,
    after: PeerSession,
    map_after: PieceMap,
    holders: Seq<Option<usize>>,
    s: int,
)
    requires
        before.wf(),
        exclusive(map.status@, holders),
        0 <= s < holders.len(),
        holders[s] == before.held(),
        before.piece_handled(map, index, begin, block, hashes, r, after, map_after),
    ensures
        exclusive(map_after.status@, holders.update(s, after.held())),
{
    if !before.accepts_block(index, begin, block.len() as int) {
        assert(holders.update(s, after.held()) =~= holders);
    } else {
        let cur = before.current_piece.unwrap();
        let data = with_block(cur.buffer@, begin as int, block);
        if cur.blocks_received + 1 != cur.blocks_total {
            assert(holders.update(s, after.held()) =~= holders);
        } else if piece_verified(data, index as int, hashes, map.status@.len() as int) {
            assert(holders.update(s, after.held()) =~= holders);
        } else {
            lemma_let_go_exclusive(map.status@, holders, s, PieceStatus::Missing);
        }
    }
}

/// Looking for a piece leaves the pieces held rightly: the piece that a
/// session claims was `Missing`, so that no other session holds it.
pub proof fn lemma_selected_exclusive(
    before: PeerSession,
    map: PieceMap,
    r: Selection,
    after: PeerSession,
    map_after: PieceMap,
    holders: Seq<Option<usize>>,
    s: int,
)
    requires
        before.wf(),
        exclusive(map.status@, holders),
        0 <= s < holders.len(),
        holders[s] == before.held(),
        before.selected(map, r, after, map_after),
    ensures
        exclusive(map_after.status@, holders.update(s, after.held())),
{
    if before.conn.peer_choking || before.held() is Some || all_have(map.status@) {
        assert(holders.update(s, after.held()) =~= holders);
    } else {
        match after.current_piece {
            Some(cur) => {
                lemma_claim_exclusive(map.status@, holders, s, cur.index);
            },
            None => {
                assert(holders.update(s, after.held()) =~= holders);
            },
        }
    }
}

/// Recording a stored piece leaves the pieces held rightly: the session
/// lets go of the piece, which becomes a `Have`.
pub proof fn lemma_stored_exclusive(
    before: PeerSession,
    map: PieceMap,
    r: Option<(Message, bool)>,
    after: PeerSession,
    map_after: PieceMap,
    holders: Seq<Option<usize>>,
    s: int,
)
    requires
        before.wf(),
        exclusive(map.status@, holders),
        0 <= s < holders.len(),
        holders[s] == before.held(),
        before.stored_as(map, r, after, map_after),
    ensures
        exclusive(map_after.status@, holders.update(s, after.held())),
{
    if before.storing is Some && before.current_piece is None {
        lemma_let_go_exclusive(map.status@, holders, s, PieceStatus::Have);
    } else {
        assert(holders.update(s, after.held()) =~= holders);
    }
}

/// Giving back the piece that a session holds leaves the pieces held
/// rightly: the session lets go of the piece, which becomes `Missing`.
pub proof fn lemma_aborted_exclusive(
    before: PeerSession,
    map: PieceMap,
    after: PeerSession,
    map_after: PieceMap,
    holders: Seq<Option<usize>>,
    s: int,
)
    requires
        before.wf(),
        exclusive(map.status@, holders),
        0 <= s < holders.len(),
        holders[s] == before.held(),
        before.aborted(map, after, map_after),
    ensures
        exclusive(map_after.status@, holders.update(s, after.held())),
{
    if before.held() is Some {
        lemma_let_go_exclusive(map.status@, holders, s, PieceStatus::Missing);
    } else {
        assert(holders.update(s, after.held()) =~= holders);
    }
}

/// Whether the content `file` holds every piece that is `Have`: the bytes
/// of such a piece, at its offset and of its length, have the digest that
/// the manifest gives for the piece.
pub open spec fn stored_ok(
    file: Seq<u8>,
    status: Seq<PieceStatus>,
    hashes: Seq<[u8; 20]>,
    piece_length: int,
    total: int,
) -> bool {
    forall|i: int|
        0 <= i < status.len() && #[trigger] status[i] == PieceStatus::Have ==> sha1_digest(
            file.subrange(
                i * piece_length,
                i * piece_length + piece_len(i, status.len() as int, piece_length, total),
            ),
        ) == hashes[i]@
}

/// Writing a verified piece at its offset, and making it a `Have`, leaves
/// the content holding every piece that is `Have`: the write changes no
/// byte of another piece.
pub proof fn lemma_store_keeps_verified(
    file: Seq<u8>,
    status: Seq<PieceStatus>,
    hashes: Seq<[u8; 20]>,
    piece_length: int,
    total: int,
    i: int,
    data: Seq<u8>,
)
    requires
        layout_ok(status.len() as int, piece_length, total),
        file.len() == total,
        stored_ok(file, status, hashes, piece_length, total),
        0 <= i < status.len(),
        data.len() == piece_len(i, status.len() as int, piece_length, total),
        sha1_digest(data) == hashes[i]@,
    ensures
        stored_ok(
            with_block(file, i * piece_length, data),
            status.update(i, PieceStatus::Have),
            hashes,
            piece_length,
            total,
        ),
        with_block(file, i * piece_length, data).len() == total,
{
    let count = status.len() as int;
    let file2 = with_block(file, i * piece_length, data);
    let status2 = status.update(i, PieceStatus::Have);
    lemma_piece_within(i, count, piece_length, total);
    assert forall|j: int| 0 <= j < status2.len() && #[trigger] status2[j] == PieceStatus::Have implies sha1_digest(
        file2.subrange(
            j * piece_length,
            j * piece_length + piece_len(j, status2.len() as int, piece_length, total),
        ),
    ) == hashes[j]@ by {
        lemma_piece_within(j, count, piece_length, total);
        let from = j * piece_length;
        let to = from + piece_len(j, count, piece_length, total);
        if j == i {
            assert(file2.subrange(from, to) =~= data);
        } else {
            assert(status[j] == PieceStatus::Have);
            if j < i {
                assert((j + 1) * piece_length <= i * piece_length) by (nonlinear_arith)
                    requires
                        j + 1 <= i,
                        piece_length > 0,
                ;
                assert((j + 1) * piece_length == j * piece_length + piece_length)
                    by (nonlinear_arith);
            } else {
                assert((i + 1) * piece_length <= j * piece_length) by (nonlinear_arith)
                    requires
                        i + 1 <= j,
                        piece_length > 0,
                ;
                assert((i + 1) * piece_length == i * piece_length + piece_length)
                    by (nonlinear_arith);
            }
            assert(file2.subrange(from, to) =~= file.subrange(from, to));
        }
    }
}

/// Whether the content `file` holds piece `i` of the map: the bytes at
/// the offset of the piece, of its length, have the digest that the manifest
/// gives for it.
pub open spec fn piece_in_file(file: Seq<u8>, i: int, map: PieceMap, hashes: Seq<[u8; 20]>) -> bool {
    &&& 0 <= i < map.status@.len()
    &&& sha1_digest(
        file.subrange(i * map.piece_length, i * map.piece_length + map.spec_piece_len(i)),
    ) == hashes[i]@
}

/// Whether the content `file` is that of the download: it has the length of
/// the content, and it holds every piece of the map that is `Have`.
pub open spec fn content_ok(file: Seq<u8>, map: PieceMap, hashes: Seq<[u8; 20]>) -> bool {
    &&& file.len() == map.total_length
    &&& stored_ok(file, map.status@, hashes, map.piece_length as int, map.total_length as int)
}

/// A piece that a session hands out for storing is a verified piece for its
/// place: it has the length of its piece and the digest that the manifest
/// gives for it, and its place is the offset of the piece.
pub proof fn lemma_handed_out_piece_is_verified(
    before: PeerSession,
    map: PieceMap,
    index: u32,
    begin: u32,
    block: Seq<u8>,
    hashes: Seq<[u8; 20]>,
    r: Reaction,
    after: PeerSession,
    map_after: PieceMap,
)
    requires
        before.fits(map),
        before.piece_handled(map, index, begin, block, hashes, r, after, map_after),
        r is Store,
    ensures
        r->piece == index,
        index < map.status@.len(),
        index < hashes.len(),
        r->Store_offset == index * map.piece_length,
        r->data@.len() == map.spec_piece_len(index as int),
        sha1_digest(r->data@) == hashes[index as int]@,
{
}

/// Writing a verified piece at its place leaves the content that of the
/// download, whatever the status of the piece, and the content then holds
/// the piece.
pub proof fn lemma_write_keeps_content(
    file: Seq<u8>,
    map: PieceMap,
    hashes: Seq<[u8; 20]>,
    i: int,
    data: Seq<u8>,
)
    requires
        map.wf(),
        content_ok(file, map, hashes),
        0 <= i < map.status@.len(),
        data.len() == map.spec_piece_len(i),
        sha1_digest(data) == hashes[i]@,
    ensures
        content_ok(with_block(file, i * map.piece_length, data), map, hashes),
        piece_in_file(with_block(file, i * map.piece_length, data), i, map, hashes),
{
    let pl = map.piece_length as int;
    let total = map.total_length as int;
    lemma_store_keeps_verified(file, map.status@, hashes, pl, total, i, data);
    let file2 = with_block(file, i * pl, data);
    let status2 = map.status@.update(i, PieceStatus::Have);
    assert(status2[i] == PieceStatus::Have);
    lemma_fewer_have_keeps_verified(file2, status2, map.status@, hashes, pl, total);
}

/// Writing a verified piece at its place changes no byte of another piece:
/// a piece that the content holds, it still holds.
pub proof fn lemma_write_keeps_piece(
    file: Seq<u8>,
    map: PieceMap,
    hashes: Seq<[u8; 20]>,
    i: int,
    j: int,
    data: Seq<u8>,
)
    requires
        map.wf(),
        file.len() == map.total_length,
        piece_in_file(file, i, map, hashes),
        0 <= j < map.status@.len(),
        j != i,
        data.len() == map.spec_piece_len(j),
    ensures
        piece_in_file(with_block(file, j * map.piece_length, data), i, map, hashes),
{
    let pl = map.piece_length as int;
    let count = map.status@.len() as int;
    let total = map.total_length as int;
    let file2 = with_block(file, j * pl, data);
    lemma_piece_within(i, count, pl, total);
    lemma_piece_within(j, count, pl, total);
    let from = i * pl;
    let to = from + piece_len(i, count, pl, total);
    if i < j {
        assert((i + 1) * pl <= j * pl) by (nonlinear_arith)
            requires
                i + 1 <= j,
                pl > 0,
        ;
        assert((i + 1) * pl == i * pl + pl) by (nonlinear_arith);
    } else {
        assert((j + 1) * pl <= i * pl) by (nonlinear_arith)
            requires
                j + 1 <= i,
                pl > 0,
        ;
        assert((j + 1) * pl == j * pl + pl) by (nonlinear_arith);
    }
    assert(file2.subrange(from, to) =~= file.subrange(from, to));
}

/// A content that holds every piece that is `Have` holds every piece that is
/// `Have` after a change of the map that makes no piece a `Have`.
pub proof fn lemma_fewer_have_keeps_verified(
    file: Seq<u8>,
    status: Seq<PieceStatus>,
    status_after: Seq<PieceStatus>,
    hashes: Seq<[u8; 20]>,
    piece_length: int,
    total: int,
)
    requires
        stored_ok(file, status, hashes, piece_length, total),
        status_after.len() == status.len(),
        forall|i: int|
            0 <= i < status.len() && #[trigger] status_after[i] == PieceStatus::Have ==> status[i]
                == PieceStatus::Have,
    ensures
        stored_ok(file, status_after, hashes, piece_length, total),
{
    assert forall|i: int|
        0 <= i < status_after.len() && #[trigger] status_after[i]
            == PieceStatus::Have implies sha1_digest(
        file.subrange(
            i * piece_length,
            i * piece_length + piece_len(i, status_after.len() as int, piece_length, total),
        ),
    ) == hashes[i]@ by {
        assert(status[i] == PieceStatus::Have);
    }
}

/// Handling a `Piece` message leaves the content that of the download: it
/// makes no piece a `Have`.
pub proof fn lemma_piece_handled_keeps_content(
    before: PeerSession,
    map: PieceMap,
    index: u32,
    begin: u32,
    block: Seq<u8>,
    hashes: Seq<[u8; 20]>,
    r: Reaction,
    after: PeerSession,
    map_after: PieceMap,
    file: Seq<u8>,
)
    requires
        content_ok(file, map, hashes),
        before.piece_handled(map, index, begin, block, hashes, r, after, map_after),
    ensures
        content_ok(file, map_after, hashes),
{
    lemma_fewer_have_keeps_verified(
        file,
        map.status@,
        map_after.status@,
        hashes,
        map.piece_length as int,
        map.total_length as int,
    );
}

/// Looking for a piece leaves the content that of the download: it makes no
/// piece a `Have`.
pub proof fn lemma_selected_keeps_content(
    before: PeerSession,
    map: PieceMap,
    r: Selection,
    after: PeerSession,
    map_after: PieceMap,
    hashes: Seq<[u8; 20]>,
    file: Seq<u8>,
)
    requires
        content_ok(file, map, hashes),
        before.selected(map, r, after, map_after),
    ensures
        content_ok(file, map_after, hashes),
{
    lemma_fewer_have_keeps_verified(
        file,
        map.status@,
        map_after.status@,
        hashes,
        map.piece_length as int,
        map.total_length as int,
    );
}

/// Giving back a piece leaves the content that of the download: it makes
/// no piece a `Have`.
pub proof fn lemma_aborted_keeps_content(
    before: PeerSession,
    map: PieceMap,
    after: PeerSession,
    map_after: PieceMap,
    hashes: Seq<[u8; 20]>,
    file: Seq<u8>,
)
    requires
        content_ok(file, map, hashes),
        before.aborted(map, after, map_after),
    ensures
        content_ok(file, map_after, hashes),
{
    lemma_fewer_have_keeps_verified(
        file,
        map.status@,
        map_after.status@,
        hashes,
        map.piece_length as int,
        map.total_length as int,
    );
}

/// Recording a stored piece leaves the content that of the download, where
/// the content holds the piece: a piece becomes a `Have` only after its
/// verified bytes stand at its place.
pub proof fn lemma_stored_keeps_content(
    before: PeerSession,
    map: PieceMap,
    r: Option<(Message, bool)>,
    after: PeerSession,
    map_after: PieceMap,
    hashes: Seq<[u8; 20]>,
    file: Seq<u8>,
)
    requires
        content_ok(file, map, hashes),
        before.stored_as(map, r, after, map_after),
        before.storing is Some ==> piece_in_file(
            file,
            before.storing.unwrap() as int,
            map,
            hashes,
        ),
    ensures
        content_ok(file, map_after, hashes),
{
    let pl = map.piece_length as int;
    let total = map.total_length as int;
    assert forall|i: int|
        0 <= i < map_after.status@.len() && #[trigger] map_after.status@[i]
            == PieceStatus::Have implies sha1_digest(
        file.subrange(
            i * pl,
            i * pl + piece_len(i, map_after.status@.len() as int, pl, total),
        ),
    ) == hashes[i]@ by {
        if before.storing is Some && i == before.storing.unwrap() {
        } else {
            assert(map.status@[i] == PieceStatus::Have);
        }
    }
}

/// When the whole download goes through `check_piece`, `select`,
/// `on_piece`, writes of the pieces handed out, `stored` and `abort`, the
/// content stays that of the download; so when it is complete, every piece
/// of the content has its digest.
pub proof fn lemma_complete_download(file: Seq<u8>, map: PieceMap, hashes: Seq<[u8; 20]>, i: int)
    requires
        content_ok(file, map, hashes),
        all_have(map.status@),
        0 <= i < map.status@.len(),
    ensures
        piece_in_file(file, i, map, hashes),
{
    assert(map.status@[i] == PieceStatus::Have);
}

/// Making a piece a `Have` whose bytes the content holds leaves the content
/// that of the download. This is what the look through existing data does:
/// it makes a piece a `Have` where the bytes read at its place are the piece.
pub proof fn lemma_found_piece_keeps_content(
    file: Seq<u8>,
    map: PieceMap,
    hashes: Seq<[u8; 20]>,
    i: int,
    map_after: PieceMap,
)
    requires
        content_ok(file, map, hashes),
        piece_in_file(file, i, map, hashes),
        map_after.piece_length == map.piece_length,
        map_after.total_length == map.total_length,
        map_after.status@ == map.status@.update(i, PieceStatus::Have),
    ensures
        content_ok(file, map_after, hashes),
{
    let pl = map.piece_length as int;
    let total = map.total_length as int;
    assert forall|k: int|
        0 <= k < map_after.status@.len() && #[trigger] map_after.status@[k]
            == PieceStatus::Have implies sha1_digest(
        file.subrange(
            k * pl,
            k * pl + piece_len(k, map_after.status@.len() as int, pl, total),
        ),
    ) == hashes[k]@ by {
        if k != i {
            assert(map.status@[k] == PieceStatus::Have);
        }
    }
}

} // verus!
