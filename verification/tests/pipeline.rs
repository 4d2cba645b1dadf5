use comparador::pipeline::{advance, codec_block, image_block, Compression, Event, Line, Stage};
use comparador::raster::{Image, PixelFormat};

#[test]
fn lossless_codec_has_one_line() {
    assert_eq!(codec_block(4, false, 3, 6), vec![Line::Codec { codec: 4, lossy: false }]);
}

#[test]
fn lossy_codec_has_hash_lines_then_metric_lines() {
    assert_eq!(
        codec_block(1, true, 2, 3),
        vec![
            Line::Codec { codec: 1, lossy: true },
            Line::Hash { codec: 1, hash: 0 },
            Line::Hash { codec: 1, hash: 1 },
            Line::Metric { codec: 1, metric: 0 },
            Line::Metric { codec: 1, metric: 1 },
            Line::Metric { codec: 1, metric: 2 },
        ]
    );
    assert_eq!(codec_block(0, true, 0, 0), vec![Line::Codec { codec: 0, lossy: true }]);
}

#[test]
fn block_opens_with_the_image_and_follows_the_codecs() {
    assert_eq!(image_block(&Vec::new(), 3, 6), vec![Line::Image]);
    assert_eq!(
        image_block(&vec![false, true, false], 1, 2),
        vec![
            Line::Image,
            Line::Codec { codec: 0, lossy: false },
            Line::Codec { codec: 1, lossy: true },
            Line::Hash { codec: 1, hash: 0 },
            Line::Metric { codec: 1, metric: 0 },
            Line::Metric { codec: 1, metric: 1 },
            Line::Codec { codec: 2, lossy: false },
        ]
    );
}

#[test]
fn block_of_the_usual_lists() {
    // Three lossless codecs and fourteen lossy ones, three hashes, six metrics.
    let mut lossy = vec![false; 3];
    lossy.extend(vec![true; 14]);
    let lines = image_block(&lossy, 3, 6);
    assert_eq!(lines.len(), 1 + 3 + 14 * 10);
    assert_eq!(lines[0], Line::Image);
    assert_eq!(lines[4], Line::Codec { codec: 3, lossy: true });
    assert_eq!(lines[143], Line::Metric { codec: 16, metric: 5 });
}

#[test]
fn a_trial_is_lossy_when_it_hands_back_an_image() {
    let lossless = Compression { stream_size: 10, time_spent: 7, image_if_lossy: None };
    assert!(!lossless.is_lossy());
    let image = Image::new(1, 1, PixelFormat::Luma8, vec![0]).unwrap();
    let lossy = Compression { stream_size: 10, time_spent: 7, image_if_lossy: Some(image) };
    assert!(lossy.is_lossy());
}

#[test]
fn an_image_goes_from_discovery_to_its_log() {
    let lossy = [false, true];
    let mut stage = Stage::Discovered;
    let mut written = Vec::new();
    let mut events = vec![Event::Decoded, Event::Hashed];
    events.extend(lossy.iter().map(|&lossy| Event::Trial { lossy }));
    let mut stages = Vec::new();
    for event in events {
        let (next, lines) = advance(stage, event, 2, 1, 2);
        written.extend(lines);
        stage = next;
        stages.push(stage);
    }
    assert_eq!(
        stages,
        vec![Stage::Decoded, Stage::Compressing { codec: 0 }, Stage::Compressing { codec: 1 }, Stage::Logged]
    );
    assert_eq!(written, image_block(&lossy.to_vec(), 1, 2));
}

#[test]
fn an_image_without_codecs_is_logged_once_hashed() {
    assert_eq!(advance(Stage::Decoded, Event::Hashed, 0, 3, 6), (Stage::Logged, Vec::new()));
    assert_eq!(
        advance(Stage::Decoded, Event::Hashed, 1, 3, 6),
        (Stage::Compressing { codec: 0 }, Vec::new())
    );
}

#[test]
fn an_image_that_cannot_be_decoded_is_given_up() {
    assert_eq!(
        advance(Stage::Discovered, Event::DecodeFailure, 17, 3, 6),
        (Stage::Failed, vec![Line::Image])
    );
    assert_eq!(advance(Stage::Discovered, Event::Decoded, 17, 3, 6), (Stage::Decoded, vec![Line::Image]));
}

#[test]
fn a_codec_that_fails_is_passed_over() {
    assert_eq!(
        advance(Stage::Compressing { codec: 4 }, Event::CodecFailure, 17, 3, 6),
        (Stage::Compressing { codec: 5 }, Vec::new())
    );
    assert_eq!(
        advance(Stage::Compressing { codec: 16 }, Event::CodecFailure, 17, 3, 6),
        (Stage::Logged, Vec::new())
    );
    assert_eq!(
        advance(Stage::Compressing { codec: 16 }, Event::Trial { lossy: false }, 17, 3, 6),
        (Stage::Logged, vec![Line::Codec { codec: 16, lossy: false }])
    );
    assert_eq!(
        advance(Stage::Compressing { codec: usize::MAX }, Event::CodecFailure, 17, 3, 6),
        (Stage::Logged, Vec::new())
    );
}

#[test]
fn a_log_that_cannot_be_written_gives_the_image_up() {
    for stage in [Stage::Discovered, Stage::Decoded, Stage::Compressing { codec: 2 }] {
        assert_eq!(advance(stage, Event::IoFailure, 17, 3, 6), (Stage::Failed, Vec::new()));
    }
}

#[test]
fn the_end_is_the_end() {
    for event in [
        Event::Decoded,
        Event::Hashed,
        Event::Trial { lossy: true },
        Event::DecodeFailure,
        Event::CodecFailure,
        Event::IoFailure,
    ] {
        assert_eq!(advance(Stage::Logged, event, 17, 3, 6), (Stage::Logged, Vec::new()));
        assert_eq!(advance(Stage::Failed, event, 17, 3, 6), (Stage::Failed, Vec::new()));
    }
}

#[test]
fn an_event_out_of_turn_changes_nothing() {
    assert_eq!(advance(Stage::Discovered, Event::Hashed, 17, 3, 6), (Stage::Discovered, Vec::new()));
    assert_eq!(
        advance(Stage::Discovered, Event::Trial { lossy: true }, 17, 3, 6),
        (Stage::Discovered, Vec::new())
    );
    assert_eq!(advance(Stage::Decoded, Event::Decoded, 17, 3, 6), (Stage::Decoded, Vec::new()));
    assert_eq!(
        advance(Stage::Compressing { codec: 1 }, Event::Hashed, 17, 3, 6),
        (Stage::Compressing { codec: 1 }, Vec::new())
    );
    assert_eq!(
        advance(Stage::Compressing { codec: 1 }, Event::DecodeFailure, 17, 3, 6),
        (Stage::Compressing { codec: 1 }, Vec::new())
    );
}

#[test]
fn a_lossless_trial_hands_back_nothing() {
    let original = Image::new(2, 2, PixelFormat::Luma8, vec![0; 4]).unwrap();
    let trial = Compression { stream_size: 10, time_spent: 7, image_if_lossy: None };
    assert!(trial.fulfils(false, &original));
    assert!(!trial.fulfils(true, &original));
}

#[test]
fn a_lossy_trial_hands_back_an_image_of_the_same_size() {
    let original = Image::new(2, 2, PixelFormat::Luma8, vec![0; 4]).unwrap();
    let same = Image::new(2, 2, PixelFormat::Rgb8, vec![1; 12]).unwrap();
    let trial = Compression { stream_size: 10, time_spent: 7, image_if_lossy: Some(same) };
    assert!(trial.fulfils(true, &original));
    assert!(!trial.fulfils(false, &original));
    let wider = Image::new(3, 2, PixelFormat::Luma8, vec![0; 6]).unwrap();
    let trial = Compression { stream_size: 10, time_spent: 7, image_if_lossy: Some(wider) };
    assert!(!trial.fulfils(true, &original));
    assert!(!trial.fulfils(false, &original));
}
