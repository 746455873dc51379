use tds::downloader::PieceStatus;

#[test]
fn test_piece_status_equality() {
    assert_eq!(PieceStatus::Missing, PieceStatus::Missing);
    assert_ne!(PieceStatus::Missing, PieceStatus::Have);
}

#[test]
fn test_piece_status_debug() {
    let status = PieceStatus::InProgress;
    assert_eq!(format!("{:?}", status), "InProgress");
}
