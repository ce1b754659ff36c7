use ptah_archive_decomposition::digest::sha256_hex;
use ptah_archive_decomposition::identity::EntityRef;
use ptah_archive_decomposition::media::{
    AdapterMedia, B04Error, MediaClass, MediaContext, MediaIsolation, MediaIsolationPolicy, MediaLimits,
    MediaMetadata, MediaRequest,
};
use ptah_archive_decomposition::media_inspect::media_report_from_answer;

fn context() -> MediaContext {
    MediaContext {
        workspace_ref: EntityRef::new("ws-1", "core.workspace"),
        authority_ref: EntityRef::new("auth-1", "core.authority"),
        source_revision_ref: EntityRef::new("rev-1", "object.revision"),
    }
}

fn passive() -> MediaIsolation {
    MediaIsolation {
        active_content_execution: MediaIsolationPolicy::Denied,
        network_access: MediaIsolationPolicy::Denied,
        external_resource_loading: MediaIsolationPolicy::Denied,
    }
}

fn output(observed: u64) -> AdapterMedia {
    AdapterMedia {
        metadata: vec![MediaMetadata { key: "codec".to_string(), value: "png".to_string() }],
        dimensions: None,
        duration: None,
        observed_source_bytes: observed,
        thumbnail: None,
        preview: None,
        frames: Vec::new(),
        waveform: None,
        derivatives: Vec::new(),
        complete_claim: true,
        unknown_gaps: Vec::new(),
        warnings: Vec::new(),
        limitations: Vec::new(),
    }
}

fn answer(
    source: &[u8],
    isolation: MediaIsolation,
    result: Result<AdapterMedia, String>,
) -> Result<ptah_archive_decomposition::media_report::MediaReport, B04Error> {
    media_report_from_answer(
        source,
        &context(),
        &MediaRequest::default(),
        MediaLimits::default(),
        &"image/png".to_string(),
        MediaClass::Image,
        " png-adapter ",
        isolation,
        result,
        sha256_hex(source),
    )
}

#[test]
fn adapter_answer_becomes_bound_report() {
    let report = answer(b"PNGDATA", passive(), Ok(output(7))).ok().unwrap();
    assert_eq!(report.adapter_id.as_deref(), Some("png-adapter"));
    assert_eq!(report.source_sha256, sha256_hex(b"PNGDATA"));
    assert_eq!(report.media_class, Some(MediaClass::Image));
    assert_eq!(report.agreed_media_type.as_deref(), Some("image/png"));
}

#[test]
fn adapter_answer_failures() {
    let mut open = passive();
    open.network_access = MediaIsolationPolicy::Allowed;
    assert!(matches!(answer(b"x", open, Ok(output(1))), Err(B04Error::UnsafeAdapterIsolation(id)) if id == "png-adapter"));
    assert!(matches!(answer(b"x", passive(), Err("boom".to_string())), Err(B04Error::AdapterFailed(m)) if m == "boom"));
    let sentinel = "ptah.b04.provider_frame_beyond_complete_duration".to_string();
    assert!(matches!(answer(b"x", passive(), Err(sentinel)), Err(B04Error::RequestOutputMismatch)));
}
