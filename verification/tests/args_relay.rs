use relay_supervisor::args::build;
use relay_supervisor::relay::split_chunk;
use relay_supervisor::request::{RelayRequest, RequestError};

fn request(source: &str, destinations: &[&str]) -> RelayRequest {
    RelayRequest {
        source: source.to_owned(),
        destinations: destinations.iter().map(|d| (*d).to_owned()).collect(),
    }
}

#[test]
fn build_two_destinations_exact_vector() {
    let req = request("srt://host:1/app", &["rtmp://a/live/k1", "rtmp://b/live/k2"]);
    let args = build(&req).unwrap();
    assert_eq!(
        args,
        vec![
            "-i".to_owned(),
            "srt://host:1/app".to_owned(),
            "-c".to_owned(),
            "copy".to_owned(),
            "-f".to_owned(),
            "flv".to_owned(),
            "rtmp://a/live/k1".to_owned(),
            "-f".to_owned(),
            "flv".to_owned(),
            "rtmp://b/live/k2".to_owned(),
        ]
    );
}

#[test]
fn build_length_is_four_plus_three_per_destination() {
    for n in 1..6usize {
        let dests: Vec<String> = (0..n).map(|i| format!("rtmp://host/{}", i)).collect();
        let refs: Vec<&str> = dests.iter().map(|d| d.as_str()).collect();
        let req = request("srt://in", &refs);
        let args = build(&req).unwrap();
        assert_eq!(args.len(), 4 + 3 * n);
        for (i, d) in dests.iter().enumerate() {
            assert_eq!(&args[4 + 3 * i], "-f");
            assert_eq!(&args[4 + 3 * i + 1], "flv");
            assert_eq!(&args[4 + 3 * i + 2], d);
        }
    }
}

#[test]
fn build_no_destinations_is_invalid() {
    let req = request("srt://host:1/app", &[]);
    assert_eq!(build(&req), Err(RequestError::InvalidRequest));
}

#[test]
fn split_chunk_emits_lines_keeps_trailing_partial() {
    let mut pending: Vec<u8> = Vec::new();
    let lines = split_chunk(&mut pending, b"a\nb\nc");
    assert_eq!(lines, vec![b"a".to_vec(), b"b".to_vec()]);
    assert_eq!(pending, b"c".to_vec());
}

#[test]
fn split_chunk_joins_across_chunks() {
    let mut pending: Vec<u8> = Vec::new();
    assert!(split_chunk(&mut pending, b"ab").is_empty());
    let lines = split_chunk(&mut pending, b"c\nd");
    assert_eq!(lines, vec![b"abc".to_vec()]);
    assert_eq!(pending, b"d".to_vec());
}

#[test]
fn split_chunk_empty_line_and_empty_chunk() {
    let mut pending: Vec<u8> = Vec::new();
    assert!(split_chunk(&mut pending, b"").is_empty());
    let lines = split_chunk(&mut pending, b"\n\n");
    assert_eq!(lines, vec![Vec::<u8>::new(), Vec::<u8>::new()]);
    assert!(pending.is_empty());
}
