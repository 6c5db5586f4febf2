use sounds_proxy::s3_upload::{MultipartUpload, PartUpload, ProbeOutcome, S3Error, UploadPhase, BUFFER_SIZE};

/// Drives a session as the uploader does, with a store that confirms each part
/// with the tag "etag-<n>", except part `fail_at`. Returns the sizes of the
/// parts uploaded, the completion's (number, tag) list if one was issued, and
/// the result.
fn drive(
    part_size: usize,
    chunks: &[Vec<u8>],
    probe: ProbeOutcome,
    fail_at: Option<i32>,
) -> (Vec<usize>, Option<Vec<(i32, String)>>, Result<(), S3Error>) {
    let mut session = MultipartUpload::new(part_size);
    let mut sizes = Vec::new();
    if let Some(r) = session.on_probe(probe) {
        // a finished session hands out nothing more
        assert!(session.next_part().is_none());
        assert!(session.last_part().is_none());
        assert!(session.completion().is_none());
        return (sizes, None, r);
    }
    let mut upload = |session: &mut MultipartUpload, part: PartUpload, sizes: &mut Vec<usize>| {
        sizes.push(part.data.len());
        let result = if Some(part.number) == fail_at {
            Err(S3Error::UploadError)
        } else {
            Ok(format!("etag-{}", part.number))
        };
        session.on_part_result(result)
    };
    for chunk in chunks {
        let mut from = 0;
        while from < chunk.len() {
            from = session.fill(chunk, from);
            if let Some(part) = session.next_part() {
                if let Err(e) = upload(&mut session, part, &mut sizes) {
                    assert!(session.completion().is_none());
                    return (sizes, None, Err(e));
                }
            }
        }
    }
    if let Some(part) = session.last_part() {
        if let Err(e) = upload(&mut session, part, &mut sizes) {
            assert!(session.completion().is_none());
            return (sizes, None, Err(e));
        }
    }
    match session.completion() {
        Some(parts) => {
            let list: Vec<(i32, String)> = parts.into_iter().map(|p| (p.number, p.tag)).collect();
            let r = session.on_completed(Ok(()));
            assert_eq!(session.completion().map(|v| v.len()), None);
            (sizes, Some(list), r)
        }
        None => (sizes, None, Ok(())),
    }
}

#[test]
fn five_parts_and_one_byte() {
    let m = 16;
    let data: Vec<u8> = (0..(5 * m + 1)).map(|i| i as u8).collect();
    // however the bytes come in
    for piece in [1usize, 3, 16, 17, 50, 81] {
        let chunks: Vec<Vec<u8>> = data.chunks(piece).map(|c| c.to_vec()).collect();
        let (sizes, completion, r) = drive(m, &chunks, ProbeOutcome::NotFound, None);
        assert_eq!(sizes, vec![m, m, m, m, m, 1]);
        let expected: Vec<(i32, String)> = (1..=6).map(|n| (n, format!("etag-{}", n))).collect();
        assert_eq!(completion, Some(expected));
        assert_eq!(r, Ok(()));
    }
}

#[test]
fn five_parts_and_one_byte_at_full_size() {
    let data = vec![7u8; 5 * BUFFER_SIZE + 1];
    let chunks: Vec<Vec<u8>> = data.chunks(1024).map(|c| c.to_vec()).collect();
    let (sizes, completion, r) = drive(BUFFER_SIZE, &chunks, ProbeOutcome::NotFound, None);
    assert_eq!(sizes, vec![BUFFER_SIZE, BUFFER_SIZE, BUFFER_SIZE, BUFFER_SIZE, BUFFER_SIZE, 1]);
    assert_eq!(completion.unwrap().iter().map(|p| p.0).collect::<Vec<_>>(), vec![1, 2, 3, 4, 5, 6]);
    assert_eq!(r, Ok(()));
}

#[test]
fn parts_keep_the_bytes_in_order() {
    let data: Vec<u8> = (0..10u8).collect();
    let mut session = MultipartUpload::new(4);
    assert!(session.on_probe(ProbeOutcome::NotFound).is_none());
    let mut parts = Vec::new();
    let mut from = 0;
    while from < data.len() {
        from = session.fill(&data, from);
        if let Some(p) = session.next_part() {
            parts.push((p.number, p.data));
            assert_eq!(session.on_part_result(Ok(format!("t{}", parts.len()))), Ok(()));
        }
    }
    let last = session.last_part().unwrap();
    parts.push((last.number, last.data));
    assert_eq!(parts, vec![(1, vec![0, 1, 2, 3]), (2, vec![4, 5, 6, 7]), (3, vec![8, 9])]);
}

#[test]
fn existing_object_is_left_alone() {
    let chunks = vec![vec![1u8; 100]];
    let (sizes, completion, r) = drive(16, &chunks, ProbeOutcome::Exists, None);
    assert!(sizes.is_empty());
    assert!(completion.is_none());
    assert_eq!(r, Ok(()));
}

#[test]
fn existing_object_takes_no_bytes() {
    let mut session = MultipartUpload::new(4);
    assert_eq!(session.on_probe(ProbeOutcome::Exists), Some(Ok(())));
    assert_eq!(session.fill(&[1, 2, 3, 4, 5], 0), 0);
    assert!(session.next_part().is_none());
    assert!(session.last_part().is_none());
    assert!(session.completion().is_none());
}

#[test]
fn failed_probe_uploads_nothing() {
    let chunks = vec![vec![1u8; 100]];
    let (sizes, completion, r) = drive(16, &chunks, ProbeOutcome::Failed, None);
    assert!(sizes.is_empty());
    assert!(completion.is_none());
    assert_eq!(r, Err(S3Error::UploadError));
}

#[test]
fn failed_third_part_of_five() {
    let m = 8;
    let chunks = vec![vec![3u8; 5 * m]];
    let (sizes, completion, r) = drive(m, &chunks, ProbeOutcome::NotFound, Some(3));
    assert_eq!(sizes, vec![m, m, m]);
    assert!(completion.is_none());
    assert_eq!(r, Err(S3Error::UploadError));
}

#[test]
fn failed_session_stays_failed() {
    let mut session = MultipartUpload::new(2);
    assert!(session.on_probe(ProbeOutcome::NotFound).is_none());
    assert_eq!(session.fill(&[1, 2], 0), 2);
    let p = session.next_part().unwrap();
    assert_eq!(p.number, 1);
    assert_eq!(session.on_part_result(Err(S3Error::UploadError)), Err(S3Error::UploadError));
    assert_eq!(session.fill(&[1, 2], 0), 0);
    assert!(session.last_part().is_none());
    assert!(session.completion().is_none());
    assert_eq!(session.on_completed(Ok(())), Err(S3Error::UnknownError));
}

#[test]
fn empty_stream_completes_nothing() {
    let (sizes, completion, r) = drive(4, &[], ProbeOutcome::NotFound, None);
    assert!(sizes.is_empty());
    assert!(completion.is_none());
    assert_eq!(r, Ok(()));
}

#[test]
fn stream_failure_is_surfaced() {
    let mut session = MultipartUpload::new(4);
    assert!(session.on_probe(ProbeOutcome::NotFound).is_none());
    session.fill(&[1, 2, 3], 0);
    assert_eq!(session.fail(S3Error::Io), S3Error::Io);
    assert!(session.last_part().is_none());
    assert!(session.completion().is_none());
}

#[test]
fn completion_failure_is_surfaced() {
    let mut session = MultipartUpload::new(4);
    assert!(session.on_probe(ProbeOutcome::NotFound).is_none());
    session.fill(&[1, 2, 3], 0);
    let p = session.last_part().unwrap();
    assert_eq!(p.data, vec![1, 2, 3]);
    assert_eq!(session.on_part_result(Ok("t".to_string())), Ok(()));
    let parts = session.completion().unwrap();
    assert_eq!(parts.len(), 1);
    assert_eq!(parts[0].tag, "t");
    assert_eq!(session.on_completed(Err(S3Error::UploadError)), Err(S3Error::UploadError));
    let _ = UploadPhase::Failed;
}

#[test]
fn parts_are_counted() {
    let mut session = MultipartUpload::new(2);
    assert_eq!(session.parts_handed_out(), 0);
    session.on_probe(ProbeOutcome::NotFound);
    session.fill(&[1, 2, 3], 0);
    session.next_part().unwrap();
    assert_eq!(session.parts_handed_out(), 1);
}

#[test]
fn one_part_at_a_time() {
    let mut session = MultipartUpload::new(2);
    session.on_probe(ProbeOutcome::NotFound);
    assert_eq!(session.fill(&[1, 2, 3, 4], 0), 2);
    let first = session.next_part().unwrap();
    assert_eq!(first.number, 1);
    assert_eq!(session.fill(&[1, 2, 3, 4], 2), 4);
    // the first part is not confirmed yet: nothing more goes out
    assert!(session.next_part().is_none());
    assert!(session.last_part().is_none());
    assert_eq!(session.on_part_result(Ok("a".to_string())), Ok(()));
    let second = session.next_part().unwrap();
    assert_eq!((second.number, second.data), (2, vec![3, 4]));
}
