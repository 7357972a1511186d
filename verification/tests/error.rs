//! Classified errors.
use cudarc::driver::sys::CUresult;
use cudarc::driver::DriverError;
use paddock_engine::error::{from_driver, is_cuda_oom, DriverFault, EngineError, ErrorClass, GenError};
use paddock_engine::request::{dur_ms, feeds_constraint, token_legal, FinishReason, RunStats};

#[test]
fn cuda_oom_is_reclassified_as_a_graceful_capacity_error() {
    let e = EngineError::internal(
        "generation failed: CUDA driver call failed: \
         DriverError(CUDA_ERROR_OUT_OF_MEMORY, \"out of memory\")",
    );
    assert_eq!(e.class, ErrorClass::Overloaded, "an OOM is capacity, not our 500");
    assert_eq!(e.code, Some("insufficient_memory"));
    assert!(e.message.contains("fewer or smaller pages"), "names the caller's lever: {}", e.message);
    assert!(
        !e.message.to_uppercase().contains("CUDA"),
        "raw driver text not leaked: {}",
        e.message
    );
}

#[test]
fn a_normal_engine_fault_stays_internal() {
    let e = EngineError::internal("tensor shape mismatch in layer 3");
    assert_eq!(e.class, ErrorClass::Internal);
    assert!(e.code.is_none());
    assert_eq!(e.message, "tensor shape mismatch in layer 3");
}

#[test]
fn typed_gen_oom_maps_to_capacity_error() {
    let e = EngineError::from_gen(&GenError::OutOfMemory);
    assert_eq!(e.class, ErrorClass::Overloaded);
    assert_eq!(e.code, Some("insufficient_memory"));
    assert!(e.message.contains("fewer or smaller pages"), "{}", e.message);
}

#[test]
fn untyped_backend_oom_still_caught_via_from_gen() {
    let e = EngineError::from_gen(&GenError::Backend(
        "cublas alloc: DriverError(CUDA_ERROR_OUT_OF_MEMORY, \"out of memory\")".into(),
    ));
    assert_eq!(e.class, ErrorClass::Overloaded, "untyped OOM still reclassified");
    assert_eq!(e.code, Some("insufficient_memory"));
}

#[test]
fn typed_backend_fault_stays_internal() {
    let e = EngineError::from_gen(&GenError::Backend("illegal address in attention kernel".into()));
    assert_eq!(e.class, ErrorClass::Internal);
}

#[test]
fn oom_is_read_in_any_case() {
    assert!(is_cuda_oom("Out Of Memory"));
    assert!(is_cuda_oom("xx out_of_memoryyy"));
    assert!(!is_cuda_oom("out-of-memory"));
    assert!(!is_cuda_oom("out of memor"));
    assert!(!is_cuda_oom(""));
}

#[test]
fn other_faults_keep_their_words() {
    for e in [
        GenError::Config("bad rope".to_owned()),
        GenError::Backend("illegal address".to_owned()),
        GenError::PoolExhausted,
    ] {
        let r = EngineError::from_gen(&e);
        assert_eq!(r.class, ErrorClass::Internal);
        assert_eq!(r.code, None);
        assert_eq!(r.message, e.to_string());
        assert_eq!(r.clone().to_string(), r.message);
    }
}

#[test]
fn rejections_name_their_numbers() {
    let e = EngineError::context_overflow(5000, 4096);
    assert_eq!(e.class, ErrorClass::InvalidRequest);
    assert_eq!(e.code, Some("context_length_exceeded"));
    assert_eq!(
        e.message,
        "the prompt is 5000 tokens but the model's context window is 4096; \
         reduce the input (or restart with a larger --max-ctx)"
    );
    let one = EngineError::context_overflow_images(5000, 4096, 4900, 1);
    assert!(one.message.starts_with("the prompt needs 5000 tokens (4900 of them from 1 image) but"));
    let two = EngineError::context_overflow_images(5000, 4096, 4900, 2);
    assert_eq!(
        two.message,
        "the prompt needs 5000 tokens (4900 of them from 2 images) but the model's context window is \
         4096; send fewer or smaller pages (the attachment's `pages` selection, or a lower image \
         `detail`), or restart with a larger --max-ctx"
    );
    assert_eq!(two.code, Some("context_length_exceeded"));
}

#[test]
fn plain_constructors_carry_their_class() {
    let e = EngineError::invalid("no");
    assert_eq!((e.class, e.code, e.message.as_str()), (ErrorClass::InvalidRequest, None, "no"));
    let e = EngineError::overloaded("later");
    assert_eq!(
        (e.class, e.code, e.message.as_str()),
        (ErrorClass::Overloaded, Some("overloaded"), "later")
    );
}

#[test]
fn reasons_durations_and_legality() {
    assert_eq!(FinishReason::Stop.as_str(), "stop");
    assert_eq!(FinishReason::Length.as_str(), "length");
    assert_eq!(dur_ms(1_999_999), 1);
    assert_eq!(dur_ms(u64::MAX), u32::MAX);
    assert_eq!(RunStats::default().kv_pages, 0);
    let stops = vec![5, 9];
    assert!(token_legal(&stops, 9, true, false));
    assert!(!token_legal(&stops, 9, false, true));
    assert!(token_legal(&stops, 4, false, true));
    assert!(!token_legal(&stops, 4, true, false));
    assert!(feeds_constraint(&stops, 4));
    assert!(!feeds_constraint(&stops, 5));
}

#[test]
fn from_driver_classifies_oom_by_code() {
    let oom = from_driver(DriverError(CUresult::CUDA_ERROR_OUT_OF_MEMORY).0 as u32);
    assert!(matches!(oom, DriverFault::OutOfMemory), "code 2 -> typed OOM");
    let other = from_driver(DriverError(CUresult::CUDA_ERROR_INVALID_VALUE).0 as u32);
    assert!(matches!(other, DriverFault::Driver), "other codes stay Driver(text)");
}

#[test]
fn a_typed_oom_reads_as_one_too() {
    assert!(is_cuda_oom(&GenError::OutOfMemory.to_string()));
    let e = EngineError::internal(&GenError::OutOfMemory.to_string());
    assert_eq!(e.class, ErrorClass::Overloaded);
    assert_eq!(e.code, Some("insufficient_memory"));
}
