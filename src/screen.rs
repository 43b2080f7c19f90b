//! Screen captures: a region of pixels stored row by row, and the detection of
//! the open chat window from the colour of its border.
use vstd::prelude::*;

verus! {

/// A region of the screen, in pixels.
#[derive(Clone, Copy, Debug, PartialEq, Eq, Structural)]
pub struct Rect {
    pub left: usize,
    pub top: usize,
    pub width: usize,
    pub height: usize,
}

/// The bytes of a capture: rows of blue, green, red triples, each row padded
/// to a multiple of four bytes.
pub struct Screenshot {
    pub region: Rect,
    pub row_size: usize,
    pub colors: Vec<u8>,
}

/// The byte length of a row of `width` pixels, padded to four bytes.
pub open spec fn row_bytes(width: nat) -> nat {
    ((width * 3 + 3) / 4) * 4
}

/// Where pixel (`x`, `y`) starts.
pub open spec fn pixel_at(row_size: nat, x: nat, y: nat) -> nat {
    y * row_size + x * 3
}

impl Screenshot {
    pub open spec fn wf(&self) -> bool {
        &&& self.row_size == row_bytes(self.region.width as nat)
        &&& self.colors@.len() == self.region.height * self.row_size
    }

    /// The colour of a pixel as (red, green, blue).
    pub open spec fn pixel(&self, x: nat, y: nat) -> (u8, u8, u8) {
        let i = pixel_at(self.row_size as nat, x, y) as int;
        (self.colors@[i + 2], self.colors@[i + 1], self.colors@[i])
    }

    /// Row `y` of pixels.
    pub open spec fn row(&self, y: nat) -> Seq<(u8, u8, u8)> {
        Seq::new(self.region.width as nat, |x: int| self.pixel(x as nat, y))
    }

    /// The first `h` rows of pixels, one after the other.
    pub open spec fn rows(&self, h: nat) -> Seq<(u8, u8, u8)>
        decreases h,
    {
        if h == 0 {
            seq![]
        } else {
            self.rows((h - 1) as nat) + self.row((h - 1) as nat)
        }
    }

    /// All pixels, row by row.
    pub open spec fn pixels(&self) -> Seq<(u8, u8, u8)> {
        self.rows(self.region.height as nat)
    }

    /// A black capture of the region.
    pub fn new(region: Rect) -> (r: Screenshot)
        requires
            region.width * 3 + 3 <= usize::MAX,
            region.height * row_bytes(region.width as nat) <= usize::MAX,
        ensures
            r.wf(),
            r.region == region,
            forall|i: int| 0 <= i < r.colors@.len() ==> r.colors@[i] == 0,
    {
        let row_byte_count = region.width * 3;
        let row_size = ((row_byte_count + 3) / 4) * 4;
        let size = region.height * row_size;
        let mut colors: Vec<u8> = Vec::new();
        let mut i: usize = 0;
        while i < size
            invariant
                i <= size,
                colors@.len() == i,
                forall|j: int| 0 <= j < i ==> colors@[j] == 0,
            decreases size - i,
        {
            colors.push(0);
            i = i + 1;
        }
        Screenshot { region, row_size, colors }
    }

    /// The colour of pixel (`x`, `y`) as (red, green, blue).
    pub fn color(&self, x: usize, y: usize) -> (r: (u8, u8, u8))
        requires
            self.wf(),
            x < self.region.width,
            y < self.region.height,
        ensures
            r == self.pixel(x as nat, y as nat),
    {
        proof {
            lemma_pixel_in_bounds(self.row_size as nat, self.region.width as nat, self.region.height as nat, x as nat, y as nat);
        }
        let n = self.colors.len();
        assert(y * self.row_size + x * 3 + 2 < n);
        let i = y * self.row_size;
        let i = i + x * 3;
        (self.colors[i + 2], self.colors[i + 1], self.colors[i])
    }

    /// The colours of all pixels, row by row, each as (red, green, blue).
    pub fn colors(&self) -> (r: Vec<(u8, u8, u8)>)
        requires
            self.wf(),
        ensures
            r@ == self.pixels(),
    {
        let mut r: Vec<(u8, u8, u8)> = Vec::new();
        let w = self.region.width;
        let h = self.region.height;
        let mut y: usize = 0;
        while y < h
            invariant
                self.wf(),
                w == self.region.width,
                h == self.region.height,
                y <= h,
                r@ == self.rows(y as nat),
            decreases h - y,
        {
            let mut x: usize = 0;
            while x < w
                invariant
                    self.wf(),
                    w == self.region.width,
                    h == self.region.height,
                    y < h,
                    x <= w,
                    r@ == self.rows(y as nat) + self.row(y as nat).subrange(0, x as int),
                decreases w - x,
            {
                let c = self.color(x, y);
                r.push(c);
                x = x + 1;
                assert(r@ =~= self.rows(y as nat) + self.row(y as nat).subrange(0, x as int));
            }
            assert(self.row(y as nat).subrange(0, x as int) =~= self.row(y as nat));
            y = y + 1;
        }
        r
    }
}

proof fn lemma_pixel_in_bounds(rs: nat, w: nat, h: nat, x: nat, y: nat)
    requires
        rs == row_bytes(w),
        x < w,
        y < h,
    ensures
        y * rs + x * 3 + 2 < h * rs,
{
    assert(x * 3 + 3 <= rs);
    assert(y * rs + rs <= h * rs) by (nonlinear_arith)
        requires
            y < h,
    ;
}

/// A capture that the sensor code refreshes in place.
pub struct Screen {
    pub screenshot: Screenshot,
}

impl Screen {
    pub open spec fn wf(&self) -> bool {
        self.screenshot.wf()
    }

    pub open spec fn last(&self) -> &Screenshot {
        &self.screenshot
    }

    /// A capture of the region, black until refreshed.
    pub fn capture_region(region: Rect) -> (r: Screen)
        requires
            region.width * 3 + 3 <= usize::MAX,
            region.height * row_bytes(region.width as nat) <= usize::MAX,
        ensures
            r.wf(),
            r.last().region == region,
    {
        Screen { screenshot: Screenshot::new(region) }
    }

    /// Stores the bytes of a new capture; bytes of the wrong length are refused.
    pub fn store(&mut self, bytes: Vec<u8>) -> (r: bool)
        requires
            old(self).wf(),
        ensures
            final(self).wf(),
            r == (bytes@.len() == old(self).last().colors@.len()),
            final(self).last().region == old(self).last().region,
            r ==> final(self).last().colors@ == bytes@,
            !r ==> final(self).last().colors@ == old(self).last().colors@,
    {
        if bytes.len() == self.screenshot.colors.len() {
            self.screenshot.colors = bytes;
            true
        } else {
            false
        }
    }

    /// The last capture.
    pub fn screenshot(&self) -> (r: &Screenshot)
        ensures
            r == self.last(),
    {
        &self.screenshot
    }
}

/// Width of the chat window's border, in pixels.
pub const CHAT_BORDER_THICKNESS: usize = 2;

/// Where the chat window starts, in percent of the screen height.
pub const CHAT_APPROX_START_PCT: usize = 70;

/// How much of the screen height is searched, in percent.
pub const CHAT_APPROX_HEIGHT_PCT: usize = 5;

/// Colour of the chat window's border.
pub const CHAT_BORDER_RED: u8 = 136;
pub const CHAT_BORDER_GREEN: u8 = 98;
pub const CHAT_BORDER_BLUE: u8 = 59;

/// Height of border that must be seen for the chat to count as open.
pub const CHAT_CHECK_HEIGHT: usize = 32;

pub open spec fn is_border(c: (u8, u8, u8)) -> bool {
    c == (CHAT_BORDER_RED, CHAT_BORDER_GREEN, CHAT_BORDER_BLUE)
}

/// The length of the run of border pixels that ends at `n` (exclusive).
pub open spec fn run_ending(cs: Seq<(u8, u8, u8)>, n: nat) -> nat
    decreases n,
{
    if n == 0 || n > cs.len() {
        0
    } else if is_border(cs[n - 1]) {
        run_ending(cs, (n - 1) as nat) + 1
    } else {
        0
    }
}

/// Whether some run of consecutive border pixels is long enough.
pub open spec fn chat_open_in(cs: Seq<(u8, u8, u8)>) -> bool {
    exists|n: nat| n <= cs.len() && run_ending(cs, n) >= CHAT_CHECK_HEIGHT * CHAT_BORDER_THICKNESS
}

/// The part of a screen of the given size where the chat border is looked for.
pub fn chat_region(size: Rect) -> (r: Rect)
    ensures
        r.left == size.left,
        r.width == CHAT_BORDER_THICKNESS,
        r.top == if size.top + (CHAT_APPROX_START_PCT * size.height) / 100 > usize::MAX {
            usize::MAX as int
        } else {
            size.top + (CHAT_APPROX_START_PCT * size.height) / 100
        },
        r.height == (CHAT_APPROX_HEIGHT_PCT * size.height) / 100,
{
    let start = (CHAT_APPROX_START_PCT as u128 * size.height as u128) / 100;
    let height = (CHAT_APPROX_HEIGHT_PCT as u128 * size.height as u128) / 100;
    let top = size.top as u128 + start;
    let top: usize = if top > usize::MAX as u128 {
        usize::MAX
    } else {
        top as usize
    };
    Rect { left: size.left, top, width: CHAT_BORDER_THICKNESS, height: height as usize }
}

/// Whether the capture shows the chat window open: a long enough run of
/// border-coloured pixels, in reading order.
pub fn check_chat(screen: &Screen) -> (r: bool)
    requires
        screen.wf(),
    ensures
        r == chat_open_in(screen.last().pixels()),
{
    let colors = screen.screenshot().colors();
    assert(colors@ == screen.last().pixels());
    let mut longest_run: usize = 0;
    let mut i: usize = 0;
    while i < colors.len()
        invariant
            i <= colors.len(),
            longest_run == run_ending(colors@, i as nat),
            colors@ == screen.last().pixels(),
            longest_run < CHAT_CHECK_HEIGHT * CHAT_BORDER_THICKNESS,
            forall|n: nat| n <= i ==> run_ending(colors@, n) < CHAT_CHECK_HEIGHT * CHAT_BORDER_THICKNESS,
        decreases colors.len() - i,
    {
        let c = colors[i];
        if c.0 == CHAT_BORDER_RED && c.1 == CHAT_BORDER_GREEN && c.2 == CHAT_BORDER_BLUE {
            longest_run = longest_run + 1;
            if longest_run >= CHAT_CHECK_HEIGHT * CHAT_BORDER_THICKNESS {
                assert(run_ending(colors@, (i + 1) as nat) == longest_run);
                assert(chat_open_in(colors@)) by {
                    let n = (i + 1) as nat;
                    assert(n <= colors@.len() && run_ending(colors@, n) >= CHAT_CHECK_HEIGHT
                        * CHAT_BORDER_THICKNESS);
                }
                return true;
            }
        } else {
            longest_run = 0;
        }
        i = i + 1;
        assert forall|n: nat| n <= i implies run_ending(colors@, n) < CHAT_CHECK_HEIGHT * CHAT_BORDER_THICKNESS by {
            if n == i {
            }
        }
    }
    proof {
        assert forall|n: nat| n <= colors@.len() implies !(run_ending(colors@, n) >= CHAT_CHECK_HEIGHT * CHAT_BORDER_THICKNESS) by {}
    }
    false
}

} // verus!
