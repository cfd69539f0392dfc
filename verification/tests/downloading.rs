use downloader::downloading::{
    chunk_size_for, disposition_field, disposition_filename, part_files, rename_candidate,
    DownloadError, fallback_filename, indexed_filename, original_filename,
    parse_filename_from_url, part_filename, plan_pieces, range_header, Piece,
};
use downloader::text::slice_from_start;

#[test]
fn chunk_size_thresholds() {
    assert_eq!(chunk_size_for(1000), 1000);
    assert_eq!(chunk_size_for(41943040), 41943040);
    assert_eq!(chunk_size_for(41943041), 13981013);
    assert_eq!(chunk_size_for(1073741823), 357913941);
    assert_eq!(chunk_size_for(1073741824), 178956970);
}

#[test]
fn small_file_is_one_piece() {
    assert_eq!(plan_pieces(10), vec![Piece { index: 0, start: 0, end: 9 }]);
}

#[test]
fn split_file_pieces() {
    let pieces = plan_pieces(41943041);
    assert_eq!(
        pieces,
        vec![
            Piece { index: 0, start: 0, end: 13981012 },
            Piece { index: 1, start: 13981013, end: 27962025 },
            Piece { index: 2, start: 27962026, end: 41943038 },
            Piece { index: 3, start: 41943039, end: 41943040 },
        ]
    );
}

#[test]
fn pieces_cover_large_file() {
    let total: u64 = 5_000_000_007;
    let pieces = plan_pieces(total);
    let chunk = chunk_size_for(total);
    assert_eq!(pieces[0].start, 0);
    assert_eq!(pieces.last().unwrap().end, total - 1);
    for w in pieces.windows(2) {
        assert_eq!(w[0].end + 1, w[1].start);
    }
    for p in &pieces {
        assert!(p.start <= p.end && p.end - p.start < chunk);
    }
    assert_eq!(pieces.len() as u64, (total + chunk - 1) / chunk);
}

#[test]
fn range_header_value() {
    let p = Piece { index: 1, start: 100, end: 199 };
    assert_eq!(range_header(&p), "bytes=100-199");
    let q = Piece { index: 0, start: 0, end: 0 };
    assert_eq!(range_header(&q), "bytes=0-0");
}

#[test]
fn part_file_names() {
    assert_eq!(part_filename("video.mp4", 0), "video.mp4.part0");
    assert_eq!(part_filename("a", 13981013), "a.part13981013");
    assert_ne!(part_filename("a", 1), part_filename("a", 10));
}

#[test]
fn filename_from_url() {
    assert_eq!(parse_filename_from_url("https://a.com/dir/file.zip".to_string()), "file.zip");
    assert_eq!(parse_filename_from_url("https://a.com/dir/".to_string()), "dir");
    assert_eq!(parse_filename_from_url("file".to_string()), "file");
    assert_eq!(parse_filename_from_url("/".to_string()), "");
    assert_eq!(parse_filename_from_url("a//".to_string()), "");
}

#[test]
fn filename_from_content_disposition() {
    assert_eq!(
        disposition_filename("attachment; filename=\"report.pdf\""),
        Some("report.pdf".to_string())
    );
    assert_eq!(disposition_filename("inline"), None);
    assert_eq!(
        disposition_filename("attachment; filename= \"a b.txt\" "),
        Some("a b.txt".to_string())
    );
    assert_eq!(disposition_filename("x filename=a filename=b"), Some("a".to_string()));
    assert_eq!(disposition_filename("filename="), Some(String::new()));
}

#[test]
fn fallback_name_rules() {
    assert_eq!(fallback_filename("short.zip".to_string()), "short.zip");
    assert_eq!(fallback_filename("abcdefghijklmnopqrs".to_string()), "abcdefghijklmnopqrs");
    assert_eq!(fallback_filename("abcdefghijklmnopqrst".to_string()), "");
}

#[test]
fn original_name_prefers_header() {
    assert_eq!(
        original_filename(Some("attachment; filename=x.bin".to_string()), "y".to_string()),
        "x.bin"
    );
    assert_eq!(original_filename(Some("inline".to_string()), "y".to_string()), "y");
    assert_eq!(original_filename(None, "y".to_string()), "y");
}

#[test]
fn indexed_names_keep_extension() {
    assert_eq!(indexed_filename("archive.tar.gz", 2), "archive.tar(2).gz");
    assert_eq!(indexed_filename("README", 1), "(1).README");
    assert_eq!(indexed_filename(".bashrc", 3), "(3).bashrc");
    assert_eq!(indexed_filename("a.", 12), "a(12).");
}

#[test]
fn slice_from_start_counts_chars() {
    assert_eq!(slice_from_start("héllo".to_string(), 2), "hé");
    assert_eq!(slice_from_start("abc".to_string(), 10), "abc");
    assert_eq!(slice_from_start("abc".to_string(), 0), "");
}

#[test]
fn raw_disposition_field() {
    assert_eq!(disposition_field("a; filename= \"x\" "), Some(" \"x\" ".to_string()));
    assert_eq!(disposition_field("inline"), None);
}

#[test]
fn rename_candidates() {
    assert_eq!(rename_candidate("a.txt", 0), "a.txt");
    assert_eq!(rename_candidate("a.txt", 1), "a(1).txt");
    assert_eq!(rename_candidate("a.txt", 12), "a(12).txt");
}

#[test]
fn part_files_follow_plan() {
    let plan = plan_pieces(41943041);
    let parts = part_files("f.bin", &plan);
    assert_eq!(
        parts,
        vec![
            (0, "f.bin.part0".to_string()),
            (1, "f.bin.part13981013".to_string()),
            (2, "f.bin.part27962026".to_string()),
            (3, "f.bin.part41943039".to_string()),
        ]
    );
}

#[test]
fn error_messages() {
    assert_eq!(DownloadError::InvalidUrl.message(), "Invalid URL.");
    assert_eq!(DownloadError::ConnectionRefused.message(), "Connection refused.");
    assert_eq!(DownloadError::NotSuccess.message(), "Response status of request is not sucess.");
    assert_eq!(DownloadError::ProgressStyle.message(), "Could not set progress bar style.");
    assert_eq!(
        DownloadError::ClientBuild("boom".to_string()).message(),
        "Could not create ClientBuilder object for connection initialization. boom"
    );
    assert_eq!(
        DownloadError::CreateOutput("e".to_string()).message(),
        "Could not create final output file, does the running program has permission? e"
    );
    assert_eq!(DownloadError::OpenPart("e".to_string()).message(), "Could not open file part. e");
    assert_eq!(
        DownloadError::RemovePart("p".to_string(), "e".to_string()).message(),
        "Could not remove file piece \"p\" after successful output file finish step. e"
    );
    assert_eq!(DownloadError::Copy("e".to_string()).message(), "error: e");
}
