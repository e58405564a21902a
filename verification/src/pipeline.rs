//! The whole run on a decoded image: scan the lightness range, remap every
//! pixel through it, and compose the side-by-side comparison canvas.

use vstd::prelude::*;

use crate::analyze::analyze;
use crate::analyze::lemma_nonempty_range_ordered;
use crate::analyze::seen_max;
use crate::analyze::seen_min;
use crate::compose::compose;
use crate::compose::composed;
use crate::compose::Canvas;
use crate::error::ContrastError;
use crate::pixel::ImageBuffer;
use crate::pixel::Pixel;
use crate::remap::remap_image;
use crate::remap::remapped_pixel_spec;

verus! {

/// The pixel set remapped through the observed range of `pts` itself.
pub open spec fn remapped_points(pts: Seq<Pixel>, param: int) -> Seq<Pixel> {
    pts.map_values(|p: Pixel| remapped_pixel_spec(p, seen_min(pts), seen_max(pts), param))
}

/// Run the full pipeline on one decoded image.
///
/// On success the canvas is the composed comparison: twice the source
/// width, the source pixels in the left half and the remapped pixels in
/// the right half, rows flipped back to top-down order. The run is refused
/// with `DegenerateRange` exactly when the image has pixels but their
/// observed lightness range has width zero, so the stretch factor would be
/// undefined.
pub fn run_pipeline(img: &ImageBuffer, param: i16) -> (res: Result<Canvas, ContrastError>)
    requires
        img.wf(),
        -100 <= param <= 100,
        2 * (img.width as int) <= u32::MAX as int,
        2 * (img.width as int) * (img.height as int) <= usize::MAX as int,
    ensures
        res is Err <==> img.points@.len() > 0 && seen_min(img.points@) == seen_max(img.points@),
        res is Err ==> res == Err::<Canvas, ContrastError>(ContrastError::DegenerateRange),
        res matches Ok(canvas) ==> {
            &&& canvas.width as int == 2 * img.width as int
            &&& canvas.height == img.height
            &&& canvas.wf()
            &&& canvas.data@ == composed(
                img.points@,
                remapped_points(img.points@, param as int),
                img.width as int,
                img.height as int,
            )
        },
{
    let range = analyze(img);
    proof {
        if img.points@.len() > 0 {
            lemma_nonempty_range_ordered(img.points@);
        }
    }
    let mapped = match remap_image(img, &range, param) {
        Ok(v) => v,
        Err(e) => {
            return Err(e);
        },
    };
    proof {
        assert(mapped@ =~= remapped_points(img.points@, param as int));
        assert(forall|k: int|
            0 <= k < mapped@.len() ==> (#[trigger] mapped@[k]).valid_for(
                img.width as int,
                img.height as int,
            ));
    }
    Ok(compose(img, &mapped))
}

} // verus!
