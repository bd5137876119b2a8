use vstd::prelude::*;

verus! {

/// Number of blurhash components along each axis.
pub const GRID: u32 = 4;

/// Widest image whose rows the encoder can address with 32-bit offsets.
pub const MAX_ENCODER_WIDTH: u32 = 1_073_741_823;

/// The error of the `blurhash` crate. It is only told apart from success.
#[verifier::external_type_specification]
#[verifier::external_body]
pub struct ExBlurhashError(blurhash::Error);

/// The text that `blurhash::encode` produces for a component grid and an
/// RGBA image of the given size.
pub uninterp spec fn blurhash_text(
    components_x: u32,
    components_y: u32,
    width: u32,
    height: u32,
    rgba: Seq<u8>,
) -> Seq<char>;

/// `blurhash::encode`. It fails exactly when a component count lies outside
/// 1..=9. The text it returns has one character for the grid, one for the
/// scale, four for the average colour and two for each further component.
/// The image must hold four bytes for each of `width * height` pixels, and
/// every byte offset must fit in 32 bits, or the encoder's indexing panics.
#[verifier::external_body]
fn encode(
    components_x: u32,
    components_y: u32,
    width: u32,
    height: u32,
    rgba: &[u8],
) -> (encoded: Result<String, blurhash::Error>)
    requires
        4 * width <= u32::MAX,
        4 * (width * height) <= u32::MAX,
        4 * (width * height) <= rgba@.len(),
    ensures
        (1 <= components_x <= 9 && 1 <= components_y <= 9) <==> encoded is Ok,
        encoded matches Ok(text) ==> text@ == blurhash_text(
            components_x,
            components_y,
            width,
            height,
            rgba@,
        ),
        encoded matches Ok(text) ==> text@.len() == 4 + 2 * components_x * components_y,
{
    blurhash::encode(components_x, components_y, width, height, rgba)
}

/// Whether the encoder can take an image of this size.
pub open spec fn encodable(width: u32, height: u32) -> bool {
    width <= MAX_ENCODER_WIDTH && 4 * (width * height) <= u32::MAX
}

/// The blurhash of an RGBA image on the fixed 4x4 grid. With this grid the
/// encoder cannot fail.
pub fn blurhash_of(width: u32, height: u32, rgba: &[u8]) -> (text: String)
    requires
        encodable(width, height),
        4 * (width * height) <= rgba@.len(),
    ensures
        text@ == blurhash_text(GRID, GRID, width, height, rgba@),
        text@.len() == 36,
{
    match encode(GRID, GRID, width, height, rgba) {
        Ok(text) => text,
        Err(_) => unreached(),
    }
}

} // verus!
