use esp_examples::pages::{index_page, temperature_page};

#[test]
fn index_page_says_hello() {
    assert_eq!(
        index_page(),
        "\n        <html>\n            <head><title>Rust</title></head>\n            <body>\n                Hello!\n            </body>\n        </html>\n    "
    );
}

#[test]
fn temperature_page_shows_the_temperature() {
    assert_eq!(
        temperature_page("-2.49"),
        "\n        <html>\n            <head><title>Rust</title></head>\n            <body>\n                -2.49\n            </body>\n        </html>\n    "
    );
}

#[test]
fn temperature_page_matches_the_format_of_the_float() {
    let t: f64 = 1.87;
    let expected = format!(
        r#"
        <html>
            <head><title>Rust</title></head>
            <body>
                {t}
            </body>
        </html>
    "#
    );
    assert_eq!(temperature_page(&t.to_string()), expected);
}
