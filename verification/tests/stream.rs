use stockbit_chatbot::chatbot::ChatbotService;
use stockbit_chatbot::chatbot_stream::llama_client::{chunk_header, LlamaClient, ResponseScanner, ScanEvent};
use stockbit_chatbot::server::{BAD_REQUEST, OK_RESPONSE};

const STREAM: &[u8] = b"{\"model\":\"m\",\"response\":\"Hel\",\"done\":false}\n{\"model\":\"m\",\"response\":\"lo\\n\\\"x\\\"\\t\",\"done\":false}\n{\"model\":\"m\",\"response\":\"\",\"done\":true}\n{\"response\":\"late\"}";

fn scan_in_pieces(bytes: &[u8], size: usize) -> (Vec<String>, bool, String) {
    let mut scanner = ResponseScanner::new();
    let mut texts = Vec::new();
    for piece in bytes.chunks(size) {
        let (got, done) = scanner.feed_chunk(piece);
        texts.extend(got);
        if done {
            return (texts, true, scanner.collected().clone());
        }
    }
    (texts, false, scanner.collected().clone())
}

#[test]
fn scanner_picks_out_generated_text() {
    let (texts, done, collected) = scan_in_pieces(STREAM, STREAM.len());
    assert_eq!(texts, vec!["Hel".to_string(), "lo\n\"x\"\t".to_string(), "".to_string()]);
    assert!(done);
    assert_eq!(collected, "Hello\n\"x\"\t");
}

#[test]
fn scanner_is_independent_of_how_bytes_are_split() {
    let whole = scan_in_pieces(STREAM, STREAM.len());
    for size in 1..20 {
        assert_eq!(scan_in_pieces(STREAM, size), whole);
    }
}

#[test]
fn scanner_collected_is_concatenation_of_texts() {
    let (texts, _, collected) = scan_in_pieces(STREAM, 7);
    assert_eq!(texts.concat(), collected);
}

#[test]
fn scanner_drops_invalid_utf8_piece() {
    let bytes: &[u8] = b"\"response\":\"\xff\xfe\",\"response\":\"ok\"";
    let (texts, done, collected) = scan_in_pieces(bytes, 3);
    assert_eq!(texts, vec!["ok".to_string()]);
    assert!(!done);
    assert_eq!(collected, "ok");
}

#[test]
fn scanner_unescapes_zero_and_carriage_return() {
    let mut scanner = ResponseScanner::new();
    let (texts, _) = scanner.feed_chunk(b"\"response\":\"a\\0b\\rc\\\\\"");
    assert_eq!(texts, vec!["a\0b\rc\\".to_string()]);
}

#[test]
fn scanner_feed_reports_each_event() {
    let mut scanner = ResponseScanner::new();
    let mut last = ScanEvent::Nothing;
    for &b in b"\"response\":\"hi\"" {
        last = scanner.feed(b);
    }
    assert!(matches!(last, ScanEvent::Text(ref t) if t == "hi"));
    let mut done = false;
    for &b in b",\"done\":true" {
        if let ScanEvent::Done = scanner.feed(b) {
            done = true;
        }
    }
    assert!(done);
}

#[test]
fn chunk_header_counts_utf8_bytes_in_hex() {
    assert_eq!(chunk_header("héllo"), "6\r\n");
    assert_eq!(chunk_header("abcdefghijklmnopqrstuvwxyz"), "1a\r\n");
    assert_eq!(chunk_header(""), "0\r\n");
}

#[test]
fn llama_request_text() {
    let json = "{\"model\":\"gemma3:1b\"}";
    assert_eq!(
        LlamaClient::request_text("127.0.0.1:11434", json),
        format!(
            "POST /api/generate HTTP/1.1\r\nHost: {}\r\nContent-Type: application/json\r\nContent-Length: {}\r\nConnection: keep-alive\r\n\r\n{}",
            "127.0.0.1:11434",
            json.len(),
            json
        )
    );
}

#[test]
fn chatbot_reply() {
    assert_eq!(ChatbotService::reply(&None), (BAD_REQUEST.to_string(), "body".to_string()));
    assert_eq!(ChatbotService::reply(&Some("{}".to_string())), (OK_RESPONSE.to_string(), String::new()));
}

#[test]
fn stream_headers_announce_chunks() {
    assert_eq!(
        stockbit_chatbot::chatbot_stream::llama_client::STREAM_HEADERS,
        "HTTP/1.1 200 OK\r\n\
            Access-Control-Allow-Origin: *\r\n\
            Content-Type: text/plain\r\n\
            Transfer-Encoding: chunked\r\n\
            \r\n"
    );
}

#[test]
fn scanner_reads_in_uneven_pieces() {
    let whole = scan_in_pieces(STREAM, STREAM.len());
    let mut scanner = ResponseScanner::new();
    let mut texts = Vec::new();
    let cuts = [0, 3, 4, 30, 31, 90, STREAM.len()];
    let mut done = false;
    for w in cuts.windows(2) {
        let (got, d) = scanner.feed_chunk(&STREAM[w[0]..w[1]]);
        texts.extend(got);
        if d {
            done = true;
            break;
        }
    }
    assert_eq!((texts, done, scanner.collected().clone()), whole);
}
