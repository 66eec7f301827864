//! The icon in the tray, the one instance of the launcher, and what closing its window does.

use crate::text::{list_has, same, views};
use vstd::prelude::*;

verus! {

/// What a start of the launcher does.
#[derive(PartialEq, Eq, Structural, Clone, Copy)]
pub enum Start {
    /// Go on.
    Run,
    /// Show the window of the instance that is there, and end.
    ShowOther,
}

/// What a start with `args` does, where a sign for others was made or not and was there before or
/// not.
pub open spec fn start_of(args: Seq<Seq<char>>, made: bool, existed: bool) -> Start {
    if !args.contains("--elevated"@) && made && existed {
        Start::ShowOther
    } else {
        Start::Run
    }
}

/// What a start of the launcher with the arguments `args` does, where the sign of an instance could
/// be made or not, and was there or not.
///
/// An instance that was asked to start with administrator rights goes on in any case: the one that
/// asked for it is about to end. Where the sign cannot be made, the launcher goes on too.
pub fn acquire_single_instance(args: &Vec<String>, made: bool, existed: bool) -> (r: Start)
    ensures
        r == start_of(views(args@), made, existed),
{
    if !list_has(args, "--elevated") && made && existed {
        Start::ShowOther
    } else {
        Start::Run
    }
}

/// Whether closing the window hides it.
pub open spec fn hides(close_action: Seq<char>) -> bool {
    close_action != "quit"@
}

/// Whether closing the window hides it in the tray instead of ending the launcher.
pub fn hides_on_close(close_action: &str) -> (r: bool)
    ensures
        r == hides(close_action@),
{
    !same(close_action, "quit")
}

/// What an entry of the menu in the tray does.
#[derive(PartialEq, Eq, Structural, Clone, Copy)]
pub enum MenuAction {
    /// Show the window.
    Show,
    /// End the launcher.
    Quit,
    /// Nothing.
    Nothing,
}

/// What the entry `id` of the menu in the tray does.
pub fn menu_action(id: &str) -> (r: MenuAction)
    ensures
        r == (if id@ == "show"@ {
            MenuAction::Show
        } else if id@ == "quit"@ {
            MenuAction::Quit
        } else {
            MenuAction::Nothing
        }),
{
    if same(id, "show") {
        MenuAction::Show
    } else if same(id, "quit") {
        MenuAction::Quit
    } else {
        MenuAction::Nothing
    }
}

/// How a picture holds its colours.
#[derive(PartialEq, Eq, Structural, Clone, Copy)]
pub enum Colors {
    /// Red, green, blue and opacity.
    Rgba,
    /// Red, green and blue.
    Rgb,
    /// In some other way.
    Other,
}

/// A picture as it was decoded.
pub struct Frame {
    /// Its samples, row by row.
    pub data: Vec<u8>,
    /// Its width.
    pub width: u32,
    /// Its height.
    pub height: u32,
    /// How it holds its colours.
    pub colors: Colors,
}

/// The values of a picture.
pub struct FrameView {
    /// Its samples.
    pub data: Seq<u8>,
    /// Its width.
    pub width: u32,
    /// Its height.
    pub height: u32,
    /// How it holds its colours.
    pub colors: Colors,
}

impl View for Frame {
    type V = FrameView;

    open spec fn view(&self) -> FrameView {
        FrameView {
            data: self.data@,
            width: self.width,
            height: self.height,
            colors: self.colors,
        }
    }
}

/// The values of a picture that may be missing.
pub open spec fn frame_opt(o: Option<Frame>) -> Option<FrameView> {
    match o {
        Some(f) => Some(f@),
        None => None,
    }
}

/// The picture in a PNG file, where it is one.
pub uninterp spec fn png_frame(bytes: Seq<u8>) -> Option<FrameView>;

/// The number in four bytes, the highest first.
pub open spec fn big_endian(b: Seq<u8>, i: int) -> int {
    b[i] * 0x100_0000 + b[i + 1] * 0x1_0000 + b[i + 2] * 0x100 + b[i + 3]
}

/// The largest width and height that are decoded: with them, eight bytes for each point can be held
/// at once on every machine.
pub const MAX_SIDE: u32 = 0x2000;

/// Whether the header of a PNG file states a size that fits in memory.
pub open spec fn fits(b: Seq<u8>) -> bool {
    b.len() >= 24 && big_endian(b, 16) <= MAX_SIDE && big_endian(b, 20) <= MAX_SIDE
}

/// `png::Decoder::new`, `read_info` and `next_frame` decode the first picture of a PNG file, whose
/// header states its width and height at the bytes 16 and 20. The samples of one with red, green and
/// blue come in threes: its colour type allows 8 and 16 bits alone.
#[verifier::external_body]
fn decode_png(bytes: &[u8]) -> (r: Option<Frame>)
    requires
        fits(bytes@),
    ensures
        frame_opt(r) == png_frame(bytes@),
        r is Some && r->0.colors == Colors::Rgb ==> r->0.data@.len() % 3 == 0,
{
    let mut reader = png::Decoder::new(std::io::Cursor::new(bytes)).read_info().ok()?;
    let mut data = vec![0u8; reader.output_buffer_size()];
    let info = reader.next_frame(&mut data).ok()?;
    data.truncate(info.buffer_size());
    let colors = match info.color_type {
        png::ColorType::Rgba => Colors::Rgba,
        png::ColorType::Rgb => Colors::Rgb,
        _ => Colors::Other,
    };
    Some(Frame { data, width: info.width, height: info.height, colors })
}

/// Samples of red, green and blue with full opacity.
pub open spec fn opaque(d: Seq<u8>) -> Seq<u8>
    decreases d.len(),
{
    if d.len() < 3 {
        Seq::empty()
    } else {
        seq![d[0], d[1], d[2], 255u8] + opaque(d.skip(3))
    }
}

fn with_opacity(d: &Vec<u8>) -> (r: Vec<u8>)
    requires
        d@.len() % 3 == 0,
    ensures
        r@ == opaque(d@),
{
    let mut out: Vec<u8> = Vec::new();
    let mut i: usize = 0;
    proof {
        assert(d@.skip(0) =~= d@);
        assert(out@ + opaque(d@) =~= opaque(d@));
    }
    while i < d.len()
        invariant
            i <= d@.len(),
            d@.len() % 3 == 0,
            i % 3 == 0,
            opaque(d@) == out@ + opaque(d@.skip(i as int)),
        decreases d@.len() - i,
    {
        let ghost before = out@;
        let ghost rest = d@.skip(i as int);
        proof {
            assert(i + 3 <= d@.len());
            assert(rest[0] == d@[i as int] && rest[1] == d@[i + 1] && rest[2] == d@[i + 2]);
            assert(rest.skip(3) =~= d@.skip(i + 3));
        }
        out.push(d[i]);
        out.push(d[i + 1]);
        out.push(d[i + 2]);
        out.push(255);
        proof {
            assert(out@ + opaque(d@.skip(i + 3)) =~= before + opaque(rest));
        }
        i += 3;
    }
    proof {
        assert(opaque(d@.skip(i as int)) =~= Seq::empty());
        assert(out@ + Seq::<u8>::empty() =~= out@);
    }
    out
}

/// The icon that a picture gives: with opacity, and none where its colours are held otherwise.
pub open spec fn icon_of(f: FrameView) -> Option<FrameView> {
    match f.colors {
        Colors::Rgba => Some(f),
        Colors::Rgb => Some(FrameView { data: opaque(f.data), colors: Colors::Rgba, ..f }),
        Colors::Other => None,
    }
}

/// The icon that a picture gives.
pub fn icon_from(f: Frame) -> (r: Option<Frame>)
    requires
        f.colors == Colors::Rgb ==> f.data@.len() % 3 == 0,
    ensures
        frame_opt(r) == icon_of(f@),
{
    match f.colors {
        Colors::Rgba => Some(f),
        Colors::Rgb => Some(
            Frame {
                data: with_opacity(&f.data),
                width: f.width,
                height: f.height,
                colors: Colors::Rgba,
            },
        ),
        Colors::Other => None,
    }
}

/// Whether the header of a PNG file states a size that fits in memory.
pub fn icon_fits(bytes: &[u8]) -> (r: bool)
    ensures
        r == fits(bytes@),
{
    if bytes.len() < 24 {
        return false;
    }
    let w: u32 = (bytes[16] as u32) * 0x100_0000 + (bytes[17] as u32) * 0x1_0000 + (bytes[18] as u32)
        * 0x100 + (bytes[19] as u32);
    let h: u32 = (bytes[20] as u32) * 0x100_0000 + (bytes[21] as u32) * 0x1_0000 + (bytes[22] as u32)
        * 0x100 + (bytes[23] as u32);
    w <= MAX_SIDE && h <= MAX_SIDE
}

/// The icon in a PNG file.
pub fn load_tray_icon(bytes: &[u8]) -> (r: Option<Frame>)
    requires
        fits(bytes@),
    ensures
        frame_opt(r) == (match png_frame(bytes@) {
            Some(f) => icon_of(f),
            None => None,
        }),
{
    match decode_png(bytes) {
        Some(f) => icon_from(f),
        None => None,
    }
}

/// An icon keeps the size of its picture and has four samples for three.
pub proof fn law_icon_keeps_the_picture(f: FrameView, i: int)
    requires
        f.colors == Colors::Rgb,
        0 <= i,
        3 * i + 2 < f.data.len(),
    ensures
        icon_of(f) is Some,
        icon_of(f)->0.width == f.width && icon_of(f)->0.height == f.height,
        4 * i + 3 < icon_of(f)->0.data.len(),
        icon_of(f)->0.data[4 * i] == f.data[3 * i],
        icon_of(f)->0.data[4 * i + 1] == f.data[3 * i + 1],
        icon_of(f)->0.data[4 * i + 2] == f.data[3 * i + 2],
        icon_of(f)->0.data[4 * i + 3] == 255,
{
    lemma_opaque(f.data, i);
}

proof fn lemma_opaque(d: Seq<u8>, i: int)
    requires
        0 <= i,
        3 * i + 2 < d.len(),
    ensures
        4 * i + 3 < opaque(d).len(),
        opaque(d)[4 * i] == d[3 * i],
        opaque(d)[4 * i + 1] == d[3 * i + 1],
        opaque(d)[4 * i + 2] == d[3 * i + 2],
        opaque(d)[4 * i + 3] == 255,
    decreases d.len(),
{
    if i > 0 {
        lemma_opaque(d.skip(3), i - 1);
        let t = opaque(d.skip(3));
        assert(opaque(d)[4 * i] == t[4 * (i - 1)]);
        assert(opaque(d)[4 * i + 1] == t[4 * (i - 1) + 1]);
        assert(opaque(d)[4 * i + 2] == t[4 * (i - 1) + 2]);
        assert(opaque(d)[4 * i + 3] == t[4 * (i - 1) + 3]);
    }
}

/// A second start shows the window of the first and ends; one with the rights of an administrator
/// runs beside it, and so does one that could leave no sign.
pub proof fn law_one_launcher_runs(args: Seq<Seq<char>>, made: bool, existed: bool)
    ensures
        start_of(args, made, existed) == Start::ShowOther <==> made && existed && !args.contains(
            "--elevated"@,
        ),
{
}

/// A picture is read only where the width and the height in its head are at most 8192 each.
pub proof fn law_size_stands_in_the_head(b: Seq<u8>)
    ensures
        b.len() < 24 ==> !fits(b),
        b.len() >= 24 && (b[16] > 0 || b[17] > 0 || b[20] > 0 || b[21] > 0) ==> !fits(b),
        b.len() >= 24 && b[16] == 0 && b[17] == 0 && b[20] == 0 && b[21] == 0 ==> (fits(b) <==> b[18]
            * 256 + b[19] <= 8192 && b[22] * 256 + b[23] <= 8192),
{
}

/// Closing the window ends the launcher only where that is set.
pub proof fn law_closing_hides_unless_told_to_quit(close_action: Seq<char>)
    ensures
        hides("tray"@),
        !hides(close_action) <==> close_action == "quit"@,
{
    reveal_strlit("tray");
    reveal_strlit("quit");
    assert("tray"@[0] != "quit"@[0]);
}

} // verus!
