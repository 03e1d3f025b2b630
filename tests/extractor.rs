use openai_proxy::extractor::{Scan, UsageExtractor, PENDING_LIMIT};
use openai_proxy::relay::Relay;

const FRAGMENT: &str = "{\"choices\":[],\"model\":\"gpt-4\",\"usage\":{\"prompt_tokens\":10,\"completion_tokens\":5,\"total_tokens\":15}}";

fn stream_text() -> String {
    format!("data: {{\"choices\":[{{\"delta\":{{}}}}]}}\n\ndata: {}\n\ndata: [DONE]\n\n", FRAGMENT)
}

fn found_in(chunks: &[&[u8]]) -> Vec<Vec<u8>> {
    let mut extractor = UsageExtractor::new();
    chunks.iter().filter_map(|c| extractor.observe(c).fragment()).collect()
}

#[test]
fn fragment_in_one_chunk() {
    let text = stream_text();
    assert_eq!(found_in(&[text.as_bytes()]), vec![FRAGMENT.as_bytes().to_vec()]);
}

#[test]
fn fragment_split_after_marker() {
    let first = "prefix {\"choices\":[],\"model\":\"gpt-4\",\"usage\":{\"prompt_";
    let second = "tokens\":10,\"completion_tokens\":5,\"total_tokens\":15}}\nrest";
    let found = found_in(&[first.as_bytes(), second.as_bytes()]);
    let whole = format!("{}{}", first, second);
    let single = found_in(&[whole.as_bytes()]);
    assert_eq!(found, single);
    let fragment: serde_json::Value = serde_json::from_slice(&found[0]).unwrap();
    assert_eq!(fragment["model"], "gpt-4");
    assert_eq!(fragment["usage"]["prompt_tokens"], 10);
    assert_eq!(fragment["usage"]["completion_tokens"], 5);
    assert_eq!(fragment["usage"]["total_tokens"], 15);
}

#[test]
fn every_split_point_finds_the_same_fragment() {
    let text = stream_text();
    let bytes = text.as_bytes();
    for at in 0..=bytes.len() {
        let (a, b) = bytes.split_at(at);
        assert_eq!(found_in(&[a, b]), vec![FRAGMENT.as_bytes().to_vec()], "split at {}", at);
    }
}

#[test]
fn marker_split_across_chunks() {
    let text = stream_text();
    let start = text.find("{\"choices\":[]").unwrap();
    let bytes = text.as_bytes();
    let found = found_in(&[&bytes[..start + 5], &bytes[start + 5..]]);
    assert_eq!(found, vec![FRAGMENT.as_bytes().to_vec()]);
}

#[test]
fn fragment_over_three_chunks() {
    let text = stream_text();
    let bytes = text.as_bytes();
    let start = text.find("{\"choices\":[]").unwrap();
    let found = found_in(&[&bytes[..start + 20], &bytes[start + 20..start + 60], &bytes[start + 60..]]);
    assert_eq!(found, vec![FRAGMENT.as_bytes().to_vec()]);
}

#[test]
fn no_marker_no_fragment() {
    assert!(found_in(&[b"data: {\"choices\":[{\"x\":1}]}\n", b"data: [DONE]\n"]).is_empty());
    assert!(found_in(&[b""]).is_empty());
}

#[test]
fn fragment_without_terminator_is_never_reported() {
    let mut extractor = UsageExtractor::new();
    assert_eq!(extractor.observe(b"xx{\"choices\":[],\"model\":\"m\""), Scan::Nothing);
    assert!(extractor.is_pending());
    assert_eq!(extractor.observe(b",\"usage\":{}}"), Scan::Nothing);
    assert!(extractor.is_pending());
}

#[test]
fn oversized_pending_fragment_is_dropped() {
    let mut extractor = UsageExtractor::new();
    assert_eq!(extractor.observe(b"{\"choices\":[],\"model\":\""), Scan::Nothing);
    assert!(extractor.is_pending());
    let filler = vec![b'a'; PENDING_LIMIT];
    assert_eq!(extractor.observe(&filler), Scan::Dropped);
    assert!(!extractor.is_pending());
    // The end of the lost fragment reports nothing.
    assert_eq!(extractor.observe(b"\"}\n"), Scan::Nothing);
    // A later fragment is still found.
    assert_eq!(
        extractor.observe(b"{\"choices\":[],\"model\":\"m\"}\n"),
        Scan::Found(b"{\"choices\":[],\"model\":\"m\"}".to_vec())
    );
}

#[test]
fn oversized_fragment_in_one_chunk_is_dropped() {
    let mut extractor = UsageExtractor::new();
    let mut chunk = b"{\"choices\":[]".to_vec();
    chunk.extend(vec![b'a'; PENDING_LIMIT]);
    assert_eq!(extractor.observe(&chunk), Scan::Dropped);
    assert!(!extractor.is_pending());
    let mut fits = b"{\"choices\":[]".to_vec();
    fits.extend(vec![b'a'; PENDING_LIMIT - 13]);
    assert_eq!(extractor.observe(&fits), Scan::Nothing);
    assert!(extractor.is_pending());
}

#[test]
fn malformed_fragment_leaves_relay_untouched() {
    let chunks: Vec<Vec<u8>> = vec![
        b"data: {\"choices\":[],\"model\":\"gpt-4\",\"usage\":{\"prompt_tokens\":\"ten\",".to_vec(),
        b"\"total_tokens\":15}}\n\ndata: [DONE]\n\n".to_vec(),
    ];
    let mut relay = Relay::new();
    let mut written = Vec::new();
    let mut fragments = Vec::new();
    for chunk in chunks.clone() {
        let (out, fragment) = relay.forward(chunk);
        written.push(out);
        fragments.extend(fragment.fragment());
    }
    assert_eq!(written, chunks);
    assert_eq!(fragments.len(), 1);
    let value: serde_json::Value = serde_json::from_slice(&fragments[0]).unwrap();
    assert!(value["usage"]["prompt_tokens"].as_u64().is_none());
}

#[test]
fn relay_writes_what_it_reads() {
    let text = stream_text();
    let bytes = text.as_bytes();
    for size in [1usize, 2, 3, 7, 13, 64, bytes.len()] {
        let mut relay = Relay::new();
        let mut written = Vec::new();
        let mut fragments = Vec::new();
        for chunk in bytes.chunks(size) {
            let (out, fragment) = relay.forward(chunk.to_vec());
            written.extend_from_slice(&out);
            fragments.extend(fragment.fragment());
        }
        assert_eq!(written, bytes, "chunks of {}", size);
        assert_eq!(fragments, vec![FRAGMENT.as_bytes().to_vec()], "chunks of {}", size);
    }
}

#[test]
fn relay_passes_empty_and_binary_chunks() {
    let mut relay = Relay::new();
    let (out, scan) = relay.forward(Vec::new());
    assert!(out.is_empty());
    assert_eq!(scan, Scan::Nothing);
    let binary = vec![0xff, 0xfe, 0x00, 0xc3];
    let (out, scan) = relay.forward(binary.clone());
    assert_eq!(out, binary);
    assert_eq!(scan, Scan::Nothing);
    assert!(!relay.is_pending());
}
