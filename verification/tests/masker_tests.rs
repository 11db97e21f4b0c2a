use iron_mask_proxy::masker::{apply_global_standard_masking, mask_email, mask_name};

#[test]
fn test_mixed_pii_in_one_sentence() {
    let input = "ติดต่อคุณสมชายที่เบอร์ 0812345678 หรืออีเมล test@test.com เลขบัตร 1103700012346";
    let masked = apply_global_standard_masking(input);

    assert!(masked.contains("081XXXXX78"));
    assert!(masked.contains("te***@test.com"));
}

#[test]
fn test_large_input_safety() {
    let large_input = "a".repeat(10000);
    let start = std::time::Instant::now();
    let _ = apply_global_standard_masking(&large_input);
    assert!(start.elapsed().as_millis() < 500);
}

#[test]
fn test_phone_scenario() {
    let masked = apply_global_standard_masking("Phone: 0812345678");
    assert!(masked.contains("081XXXXX78"));
}

#[test]
fn test_email_scenario() {
    let masked = apply_global_standard_masking("Email: test@test.com");
    assert!(masked.contains("te***@test.com"));
}

#[test]
fn test_national_id_scenario() {
    let masked = apply_global_standard_masking("id 1103700012346 end");
    assert!(masked.contains("110XXXXXX2346"));

    let unchanged = apply_global_standard_masking("id 1103700012345 end");
    assert_eq!(unchanged, "id 1103700012345 end");
}

#[test]
fn test_card_masking() {
    let masked = apply_global_standard_masking("card 4111111111111111 paid");
    assert_eq!(masked, "card 4111********1111 paid");

    let unchanged = apply_global_standard_masking("card 4111111111111112 paid");
    assert_eq!(unchanged, "card 4111111111111112 paid");
}

#[test]
fn test_card_with_separators() {
    let masked = apply_global_standard_masking("card 4111 1111 1111 1111 paid");
    assert_eq!(masked, "card 4111********1111 paid");
}

#[test]
fn test_landline_phone() {
    let masked = apply_global_standard_masking("call 02-123-4567 now");
    assert!(masked.contains("02XXXX67"));
}

#[test]
fn test_phone_wrong_length_unchanged() {
    let unchanged = apply_global_standard_masking("code 086-1234 end");
    assert_eq!(unchanged, "code 086-1234 end");
}

#[test]
fn test_short_digit_runs_untouched() {
    let input = "order 12345 of 2024";
    assert_eq!(apply_global_standard_masking(input), input);
}

#[test]
fn test_mask_email_short_local_part() {
    assert_eq!(mask_email("a@b.co"), "*@b.co");
    assert_eq!(mask_email("te@test.com"), "te***@test.com");
    assert_eq!(mask_email("somebody@example.org"), "so***@example.org");
}

#[test]
fn test_mask_email_without_single_at_unchanged() {
    assert_eq!(mask_email("no-at-sign"), "no-at-sign");
    assert_eq!(mask_email("a@b@c"), "a@b@c");
}

#[test]
fn test_mask_name() {
    assert_eq!(mask_name("somchai"), "so***");
    assert_eq!(mask_name("x"), "***");
    assert_eq!(mask_name(""), "***");
    assert_eq!(mask_name("ab"), "ab***");
}

#[test]
fn test_masking_idempotent() {
    let inputs = [
        "Phone: 0812345678",
        "Email: test@test.com",
        "id 1103700012346 end",
        "card 4111111111111111 paid",
    ];
    for input in inputs {
        let once = apply_global_standard_masking(input);
        let twice = apply_global_standard_masking(&once);
        assert_eq!(twice, once);
    }
}

#[test]
fn test_no_match_returns_input_unchanged() {
    let input = "plain text with nothing sensitive";
    assert_eq!(apply_global_standard_masking(input), input);
}
