use leaderboard::error::{AppError, AppErrorResponse};

fn text(message: &str) -> String {
    message.to_string()
}

#[test]
fn each_error_has_its_status_code() {
    assert_eq!(AppError::BadRequest(text("a")).status(), 400);
    assert_eq!(AppError::Unauthorized(text("b")).status(), 401);
    assert_eq!(AppError::Forbidden(text("c")).status(), 403);
    assert_eq!(AppError::NotFound(text("d")).status(), 404);
    assert_eq!(AppError::Conflict(text("e")).status(), 409);
    assert_eq!(AppError::Server(text("f")).status(), 500);
}

#[test]
fn the_response_carries_the_message_and_the_version() {
    let (status, body) = AppError::Conflict(text("score is lower than current")).into_response("1.2.3");
    assert_eq!(status, 409);
    assert_eq!(body, AppErrorResponse { msg: text("score is lower than current"), ver: "1.2.3" });
    let (status, body) = AppError::Server(text("disk full")).into_response("0.1.0");
    assert_eq!(status, 500);
    assert_eq!(body.msg, "disk full");
    assert_eq!(body.ver, "0.1.0");
}

#[test]
fn every_variant_keeps_its_message_in_the_response() {
    let cases = [
        (AppError::BadRequest(text("bad")), 400, "bad"),
        (AppError::Unauthorized(text("invalid secret")), 401, "invalid secret"),
        (AppError::Forbidden(text("no")), 403, "no"),
        (AppError::NotFound(text("gone")), 404, "gone"),
        (AppError::Conflict(text("lower")), 409, "lower"),
        (AppError::Server(text("")), 500, ""),
    ];
    for (error, status, message) in cases {
        let (code, body) = error.into_response("v");
        assert_eq!(code, status);
        assert_eq!(body.msg, message);
        assert_eq!(body.ver, "v");
    }
}
