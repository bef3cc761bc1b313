use transport::downloader::{Downloader, Notification, ServerAddress};
use transport::registry;

const SERVER: ServerAddress = ServerAddress { ip: 0x7f000001, port: 4000 };

fn content(size: usize) -> Vec<u8> {
    (0..size).map(|i| (i * 31 % 251) as u8).collect()
}

/// What a correct server answers to one request.
fn answer(request: &[u8], content: &[u8]) -> Vec<u8> {
    let text = std::str::from_utf8(request).unwrap();
    assert!(text.starts_with("GET "));
    assert!(text.ends_with('\n'));
    let mut fields = text[4..text.len() - 1].split(' ');
    let start: usize = fields.next().unwrap().parse().unwrap();
    let length: usize = fields.next().unwrap().parse().unwrap();
    let mut out = format!("DATA {} {}\n", start, length).into_bytes();
    out.extend_from_slice(&content[start..start + length]);
    out
}

/// One cycle of the loop: send, let `network` decide what comes back, drain,
/// slide and persist, refill. Returns the number of requests sent.
fn cycle(
    downloader: &mut Downloader,
    file: &mut Vec<u8>,
    appends: &mut usize,
    content: &[u8],
    network: &mut dyn FnMut(Vec<Vec<u8>>) -> Vec<Vec<u8>>,
) -> usize {
    let requests = downloader.requests();
    let sent = requests.len();
    let answers: Vec<Vec<u8>> = requests.iter().map(|r| answer(r, content)).collect();
    let delivered = network(answers);
    if delivered.is_empty() {
        downloader.on_notification(Notification::Timeout);
    } else {
        downloader.on_notification(Notification::ReadReady(1_000_000));
        for datagram in &delivered {
            downloader.store_segment(SERVER, datagram);
        }
    }
    let before = downloader.bytes_downloaded();
    for segment in downloader.slide() {
        assert_eq!(segment.byte_range().start, file.len());
        file.extend_from_slice(segment.as_bytes());
        *appends += 1;
    }
    assert!(downloader.bytes_downloaded() >= before);
    assert_eq!(downloader.bytes_downloaded(), file.len());
    assert!(
        downloader.bytes_downloaded() % 500 == 0
            || downloader.bytes_downloaded() == downloader.file_size()
    );
    downloader.refill();
    assert!(downloader.window().len() <= 1000);
    sent
}

fn download(
    size: usize,
    network: &mut dyn FnMut(Vec<Vec<u8>>) -> Vec<Vec<u8>>,
) -> (Vec<u8>, usize, usize) {
    let content = content(size);
    let mut downloader = Downloader::new(SERVER, size);
    let mut file = Vec::new();
    let mut appends = 0;
    let mut cycles = 0;
    while !downloader.is_complete() {
        cycle(&mut downloader, &mut file, &mut appends, &content, network);
        cycles += 1;
        assert!(cycles < 100000);
    }
    assert_eq!(file, content);
    (file, appends, cycles)
}

#[test]
fn replies_in_order() {
    let (file, appends, cycles) = download(1500, &mut |answers| answers);
    assert_eq!(file.len(), 1500);
    assert_eq!(appends, 3);
    assert_eq!(cycles, 1);
}

#[test]
fn first_request_dropped() {
    let mut first = true;
    let (file, appends, cycles) = download(1500, &mut |mut answers| {
        if first {
            first = false;
            answers.remove(0);
        }
        answers
    });
    assert_eq!(file.len(), 1500);
    assert_eq!(appends, 3);
    assert_eq!(cycles, 2);
}

#[test]
fn nothing_arrives_then_retransmission() {
    let mut round = 0;
    let (file, appends, cycles) = download(1500, &mut |answers| {
        round += 1;
        if round == 1 {
            Vec::new()
        } else {
            answers
        }
    });
    assert_eq!(file.len(), 1500);
    assert_eq!(appends, 3);
    assert_eq!(cycles, 2);
}

#[test]
fn every_response_twice() {
    let (file, appends, _) = download(1500, &mut |answers| {
        let mut twice = Vec::new();
        for a in answers {
            twice.push(a.clone());
            twice.push(a);
        }
        twice
    });
    assert_eq!(file.len(), 1500);
    assert_eq!(appends, 3);
}

#[test]
fn served_out_of_order() {
    let mut seed: u64 = 12345;
    let (file, appends, _) = download(600000, &mut |mut answers| {
        // shuffle, and lose about a third
        let mut kept = Vec::new();
        while !answers.is_empty() {
            seed = seed.wrapping_mul(6364136223846793005).wrapping_add(1442695040888963407);
            let pick = (seed >> 33) as usize % answers.len();
            let a = answers.swap_remove(pick);
            if (seed >> 20) % 3 != 0 {
                kept.push(a);
            }
        }
        kept
    });
    assert_eq!(file.len(), 600000);
    assert_eq!(appends, 1200);
}

#[test]
fn window_slides_only_over_a_complete_prefix() {
    let content = content(600000);
    let mut downloader = Downloader::new(SERVER, 600000);
    let mut file = Vec::new();
    let mut appends = 0;
    // everything but the first segment arrives
    cycle(&mut downloader, &mut file, &mut appends, &content, &mut |mut answers| {
        answers.remove(0);
        answers
    });
    assert_eq!(file.len(), 0);
    assert_eq!(downloader.window().persisted_segments(), 0);
    assert_eq!(downloader.window().len(), 1000);
    assert_eq!(downloader.requests(), vec![b"GET 0 500\n".to_vec()]);
    // the first segment arrives: the whole window leaves and is refilled
    cycle(&mut downloader, &mut file, &mut appends, &content, &mut |answers| answers);
    assert_eq!(file.len(), 500000);
    assert_eq!(downloader.window().persisted_segments(), 1000);
    assert_eq!(downloader.window().len(), 200);
    assert_eq!(file[..], content[..500000]);
}

#[test]
fn single_short_segment() {
    let (file, appends, cycles) = download(123, &mut |answers| {
        assert_eq!(answers.len(), 1);
        assert!(answers[0].starts_with(b"DATA 0 123\n"));
        answers
    });
    assert_eq!(file.len(), 123);
    assert_eq!(appends, 1);
    assert_eq!(cycles, 1);
}

#[test]
fn empty_file_is_complete_at_once() {
    let downloader = Downloader::new(SERVER, 0);
    assert!(downloader.is_complete());
    assert!(downloader.requests().is_empty());
}

#[test]
fn malformed_datagram_is_dropped() {
    let mut first = true;
    let (file, appends, _) = download(1500, &mut |mut answers| {
        if first {
            first = false;
            answers.insert(1, b"DATA abc 10\n0123456789".to_vec());
        }
        answers
    });
    assert_eq!(file.len(), 1500);
    assert_eq!(appends, 3);
}

#[test]
fn datagrams_of_strangers_are_dropped() {
    let content = content(1500);
    let mut downloader = Downloader::new(SERVER, 1500);
    let requests = downloader.requests();
    assert_eq!(
        requests,
        vec![
            b"GET 0 500\n".to_vec(),
            b"GET 500 500\n".to_vec(),
            b"GET 1000 500\n".to_vec()
        ]
    );
    let reply = answer(&requests[0], &content);
    assert!(!downloader.store_segment(ServerAddress { ip: 0x7f000001, port: 4001 }, &reply));
    assert!(!downloader.store_segment(ServerAddress { ip: 0x7f000002, port: 4000 }, &reply));
    assert!(downloader.store_segment(SERVER, &reply));
    assert!(!downloader.store_segment(SERVER, &reply));
    assert_eq!(downloader.requests().len(), 2);
    // wrong bytes for a slot that is already received change nothing
    let mut forged = b"DATA 0 500\n".to_vec();
    forged.extend_from_slice(&[0u8; 500]);
    assert!(!downloader.store_segment(SERVER, &forged));
    assert_eq!(downloader.slide()[0].as_bytes(), &content[..500]);
}

#[test]
fn oversized_and_undersized_datagrams_are_dropped() {
    let mut downloader = Downloader::new(SERVER, 1500);
    assert!(!downloader.store_segment(SERVER, b"DATA 0\n"));
    let mut long = b"DATA 0 500\n".to_vec();
    long.extend_from_slice(&[0u8; 509]);
    assert_eq!(long.len(), 520);
    assert!(!downloader.store_segment(SERVER, &long));
    assert_eq!(downloader.requests().len(), 3);
}

#[test]
fn deadline_is_used_up_and_restored() {
    let mut downloader = Downloader::new(SERVER, 1500);
    assert_eq!(Downloader::TIMEOUT, 1_000_000_000);
    assert_eq!(downloader.deadline(), 1_000_000_000);
    downloader.on_notification(Notification::ReadReady(400_000_000));
    assert_eq!(downloader.deadline(), 600_000_000);
    downloader.on_notification(Notification::ReadReady(400_000_000));
    assert_eq!(downloader.deadline(), 200_000_000);
    downloader.on_notification(Notification::ReadReady(400_000_000));
    assert_eq!(downloader.deadline(), 0);
    downloader.on_notification(Notification::Timeout);
    assert_eq!(downloader.deadline(), 1_000_000_000);
    assert_eq!(downloader.server_address(), SERVER);
}

#[test]
fn wait_outcomes() {
    assert_eq!(
        Notification::of_wait(registry::Registry::notification(0, 5)),
        Notification::Timeout
    );
    assert_eq!(
        Notification::of_wait(registry::Registry::notification(2, 5)),
        Notification::ReadReady(5)
    );
}
