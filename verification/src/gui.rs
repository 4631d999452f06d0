use vstd::prelude::*;

use crate::color::{desktop_background, window_border, Color};
use crate::layer::{cell_in, Layer};

verus! {

impl Layer {
    /// Draws window chrome filling the entire layer: a 25-pixel title bar,
    /// one-pixel left, right and bottom borders, and the desktop
    /// background color for the content area between them. The layer must
    /// be large enough to hold the chrome.
    pub fn draw_window(&mut self, _title: &str)
        requires
            old(self).wf(),
            old(self).w() >= 56,
            old(self).h() >= 30,
        ensures
            final(self).wf(),
            final(self).same_meta(*old(self)),
            forall|lx: int, ly: int|
                #[trigger] cell_in(old(self).w(), old(self).h(), lx, ly) ==> final(self).pixel(
                    lx,
                    ly,
                ) == if 1 <= lx < old(self).w() - 1 && 25 <= ly < old(self).h() - 1 {
                    (Color { r: 0x20, g: 0x20, b: 0x20, a: 0xff })
                } else {
                    (Color { r: 0x55, g: 0x55, b: 0x55, a: 0xff })
                },
    {
        let border = window_border();
        let background = desktop_background();
        let layer_width = self.get_width();
        let layer_height = self.get_height();
        self.draw_rect(0, 0, layer_width, 25, border);
        self.draw_rect(0, 25, 1, layer_height - 25, border);
        self.draw_rect(layer_width - 1, 25, 1, layer_height - 25, border);
        self.draw_rect(0, layer_height - 1, layer_width, 1, border);
        self.draw_rect(1, 25, layer_width - 2, layer_height - 26, background);
    }
}

} // verus!
