use std::time::Duration;

use wildside::poi::PointOfInterest;
use wildside::routing::{
    HttpTravelTimeProviderConfig, RequestFailure, StubTravelTimeProvider, TableResponse,
    TravelTimeError, build_unit_matrix, build_unit_row, classify_request_failure, convert_response,
    max_duration, require_pois, seconds, table_url, unit_duration,
};

fn sample_pois(count: usize) -> Vec<PointOfInterest<(f64, f64)>> {
    (0..count).map(|i| PointOfInterest::with_empty_tags(i as u64, (0.0, 0.0))).collect()
}

#[test]
fn config_builder_pattern() {
    let config = HttpTravelTimeProviderConfig::new("http://example.com".to_string())
        .with_timeout(Duration::from_secs(60))
        .with_user_agent("test-agent/1.0".to_string());
    assert_eq!(config.base_url, "http://example.com");
    assert_eq!(config.timeout, Duration::from_secs(60));
    assert_eq!(config.user_agent, "test-agent/1.0");
}

#[test]
fn config_defaults() {
    let config = HttpTravelTimeProviderConfig::default();
    assert_eq!(config.base_url, "http://localhost:5000");
    assert_eq!(config.timeout, Duration::from_secs(30));
    assert_eq!(config.user_agent, "wildside-routing/0.1");
    let config = HttpTravelTimeProviderConfig::new("http://osrm".to_string());
    assert_eq!(config.timeout, Duration::from_secs(30));
    assert_eq!(config.user_agent, "wildside-routing/0.1");
}

#[test]
fn durations_match_std() {
    assert_eq!(seconds(60), Duration::from_secs(60));
    assert_eq!(seconds(0), Duration::ZERO);
    assert_eq!(max_duration(), Duration::MAX);
}

#[test]
fn build_table_url_formats_coordinates() {
    let url = table_url("http://osrm.example.com", &["-0.1,51.5".to_string(), "-0.2,51.6".to_string()]);
    assert_eq!(url, "http://osrm.example.com/table/v1/walking/-0.1,51.5;-0.2,51.6");
}

#[test]
fn build_table_url_strips_trailing_slash() {
    let url = table_url("http://osrm.example.com/", &["-0.1,51.5".to_string(), "-0.2,51.6".to_string()]);
    assert!(url.starts_with("http://osrm.example.com/table/"));
    assert!(!url.contains("//table"));
    assert_eq!(table_url("http://h//", &["1,2".to_string()]), "http://h/table/v1/walking/1,2");
    assert_eq!(table_url("http://h", &[]), "http://h/table/v1/walking/");
}

#[test]
fn convert_response_handles_success() {
    let response = TableResponse {
        code: "Ok".to_string(),
        message: None,
        durations: Some(vec![
            vec![Some(Duration::ZERO), Some(Duration::from_secs_f64(120.5))],
            vec![Some(Duration::from_secs_f64(120.5)), Some(Duration::ZERO)],
        ]),
    };
    let matrix = convert_response(response).expect("should convert");
    assert_eq!(matrix.len(), 2);
    assert_eq!(matrix[0][0], Duration::ZERO);
    assert_eq!(matrix[0][1], Duration::from_secs_f64(120.5));
    assert_eq!(matrix[1][0], Duration::from_secs_f64(120.5));
    assert_eq!(matrix[1][1], Duration::ZERO);
}

#[test]
fn convert_response_handles_null_durations() {
    let response = TableResponse {
        code: "Ok".to_string(),
        message: None,
        durations: Some(vec![vec![Some(Duration::ZERO), None], vec![None, Some(Duration::ZERO)]]),
    };
    let matrix = convert_response(response).expect("should convert");
    assert_eq!(matrix[0][1], Duration::MAX);
    assert_eq!(matrix[1][0], Duration::MAX);
}

#[test]
fn convert_response_handles_service_error() {
    let response = TableResponse {
        code: "InvalidQuery".to_string(),
        message: Some("Too many coordinates".to_string()),
        durations: None,
    };
    match convert_response(response).expect_err("should fail") {
        TravelTimeError::ServiceError { code, message } => {
            assert_eq!(code, "InvalidQuery");
            assert_eq!(message, "Too many coordinates");
        }
        err => panic!("expected ServiceError, got {err:?}"),
    }
    let response = TableResponse { code: "NoTable".to_string(), message: None, durations: Some(Vec::new()) };
    assert_eq!(
        convert_response(response).unwrap_err(),
        TravelTimeError::ServiceError { code: "NoTable".to_string(), message: String::new() }
    );
}

#[test]
fn convert_response_handles_missing_durations() {
    let response = TableResponse { code: "Ok".to_string(), message: None, durations: None };
    assert!(matches!(convert_response(response).unwrap_err(), TravelTimeError::ParseError { .. }));
    let response = TableResponse { code: "Ok".to_string(), message: None, durations: Some(Vec::new()) };
    assert!(response.is_ok());
    assert!(convert_response(response).unwrap().is_empty());
}

#[test]
fn empty_input_returns_error() {
    assert_eq!(require_pois::<(f64, f64)>(&[]), Err(TravelTimeError::EmptyInput));
    assert_eq!(require_pois(&sample_pois(1)), Ok(()));
}

#[test]
fn request_failures_are_classified() {
    let timeout = classify_request_failure(
        "http://h",
        30,
        RequestFailure { timed_out: true, status: Some(504), message: "late".to_string() },
    );
    assert_eq!(timeout, TravelTimeError::Timeout { url: "http://h".to_string(), timeout_secs: 30 });
    let http = classify_request_failure(
        "http://h",
        30,
        RequestFailure { timed_out: false, status: Some(502), message: "bad gateway".to_string() },
    );
    assert_eq!(
        http,
        TravelTimeError::HttpError { url: "http://h".to_string(), status: 502, message: "bad gateway".to_string() }
    );
    let network = classify_request_failure(
        "http://h",
        30,
        RequestFailure { timed_out: false, status: None, message: "refused".to_string() },
    );
    assert_eq!(network, TravelTimeError::NetworkError { url: "http://h".to_string(), message: "refused".to_string() });
}

#[test]
fn with_matrix_returns_configured_matrix() {
    let matrix = vec![vec![Duration::ZERO, Duration::from_secs(60)], vec![Duration::from_secs(60), Duration::ZERO]];
    let provider = StubTravelTimeProvider::with_matrix(matrix.clone());
    let result = provider.get_travel_time_matrix(&sample_pois(2)).expect("should succeed");
    assert_eq!(result, matrix);
}

#[test]
fn with_error_returns_configured_error() {
    let provider = StubTravelTimeProvider::with_error(TravelTimeError::NetworkError {
        url: "http://example.com".to_string(),
        message: "connection refused".to_string(),
    });
    let err = provider.get_travel_time_matrix(&sample_pois(2)).expect_err("should fail");
    assert!(matches!(err, TravelTimeError::NetworkError { .. }));
}

#[test]
fn empty_input_returns_empty_input_error() {
    let provider = StubTravelTimeProvider::with_unit_matrix(2);
    let err = provider.get_travel_time_matrix::<(f64, f64)>(&[]).expect_err("should fail");
    assert_eq!(err, TravelTimeError::EmptyInput);
    let provider = StubTravelTimeProvider::with_error(TravelTimeError::ParseError { message: "x".to_string() });
    assert_eq!(provider.get_travel_time_matrix::<(f64, f64)>(&[]).unwrap_err(), TravelTimeError::EmptyInput);
}

#[test]
fn with_unit_matrix_creates_correct_pattern() {
    let provider = StubTravelTimeProvider::with_unit_matrix(3);
    let matrix = provider.get_travel_time_matrix(&sample_pois(3)).expect("should succeed");
    assert_eq!(matrix.len(), 3);
    for (i, row) in matrix.iter().enumerate() {
        assert_eq!(row.len(), 3);
        for (j, &cell) in row.iter().enumerate() {
            if i == j {
                assert_eq!(cell, Duration::ZERO);
            } else {
                assert_eq!(cell, Duration::from_secs(1));
            }
        }
    }
}

#[test]
fn unit_matrix_parts() {
    assert_eq!(unit_duration(2, 2), Duration::ZERO);
    assert_eq!(unit_duration(2, 1), Duration::from_secs(1));
    assert_eq!(build_unit_row(3, 1), vec![Duration::from_secs(1), Duration::ZERO, Duration::from_secs(1)]);
    assert!(build_unit_matrix(0).is_empty());
}

#[test]
fn errors_duplicate_exactly() {
    let e = TravelTimeError::HttpError { url: "u".to_string(), status: 500, message: "m".to_string() };
    assert_eq!(e.duplicate(), e);
}

/// Decode an OSRM Table API body into a response, reading each duration
/// cell as seconds.
fn decode(json: &str) -> TableResponse {
    let value: serde_json::Value = serde_json::from_str(json).expect("should deserialise");
    let durations = value.get("durations").and_then(|rows| rows.as_array()).map(|rows| {
        rows.iter()
            .map(|row| {
                row.as_array()
                    .expect("rows are arrays")
                    .iter()
                    .map(|cell| cell.as_f64().map(Duration::from_secs_f64))
                    .collect()
            })
            .collect()
    });
    TableResponse {
        code: value["code"].as_str().expect("code is a string").to_string(),
        message: value.get("message").and_then(|m| m.as_str()).map(str::to_string),
        durations,
    }
}

#[test]
fn deserialise_success_response() {
    let response = decode(r#"{"code": "Ok", "durations": [[0.0, 120.5], [120.5, 0.0]]}"#);
    assert!(response.is_ok());
    assert!(response.message.is_none());
    let durations = response.durations.expect("should have durations");
    assert_eq!(durations.len(), 2);
    assert_eq!(durations[0][0], Some(Duration::ZERO));
    assert_eq!(durations[0][1], Some(Duration::from_secs_f64(120.5)));
}

#[test]
fn deserialise_error_response() {
    let response = decode(r#"{"code": "InvalidQuery", "message": "Coordinates are invalid"}"#);
    assert!(!response.is_ok());
    assert_eq!(response.message, Some("Coordinates are invalid".to_string()));
    assert!(response.durations.is_none());
}

#[test]
fn deserialise_response_with_nulls() {
    let response = decode(r#"{"code": "Ok", "durations": [[0.0, null], [null, 0.0]]}"#);
    assert!(response.is_ok());
    let durations = response.durations.expect("should have durations");
    assert_eq!(durations[0][1], None);
    assert_eq!(durations[1][0], None);
}
