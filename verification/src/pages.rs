use vstd::prelude::*;

verus! {

/// The page that the HTTP server answers `GET /api` with.
pub const INDEX_PAGE: &'static str = "
        <html>
            <head><title>Rust</title></head>
            <body>
                Hello!
            </body>
        </html>
    ";

/// What the weather station's page holds before the temperature.
pub const TEMPERATURE_PAGE_HEAD: &'static str = "
        <html>
            <head><title>Rust</title></head>
            <body>
                ";

/// What the weather station's page holds after the temperature.
pub const TEMPERATURE_PAGE_TAIL: &'static str = "
            </body>
        </html>
    ";

/// The HTTP server's page.
pub fn index_page() -> (page: String)
    ensures
        page@ == INDEX_PAGE@,
{
    INDEX_PAGE.to_owned()
}

/// The weather station's page, showing the temperature written as
/// `temperature`.
pub fn temperature_page(temperature: &str) -> (page: String)
    ensures
        page@ == TEMPERATURE_PAGE_HEAD@ + temperature@ + TEMPERATURE_PAGE_TAIL@,
{
    let mut page = TEMPERATURE_PAGE_HEAD.to_owned();
    page.append(temperature);
    page.append(TEMPERATURE_PAGE_TAIL);
    page
}

} // verus!
