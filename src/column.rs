//! The column layout engine: a column of styled texts fitted to a width
//! policy and rendered row by row, aligned to its widest entry.
use crate::text::{
    ellipsis, ellipsize, ellipsize_string, pad_end, pad_end_string, pad_start, pad_start_string, spaces,
    spaces_string,
};
use vstd::prelude::*;
use vstd::string::StrSliceExecFns;
use vstd::string::StringExecFns;

verus! {

/// A semantic color; what it looks like on a terminal is up to the painter.
#[derive(Debug, Copy, Clone, PartialEq, Eq, Structural)]
pub enum TextColor {
    Plain,
    Green,
    Yellow,
    Red,
}

/// A text together with the color it is to be shown in.
#[derive(Debug, Clone)]
pub struct StyledText {
    pub text: String,
    pub color: TextColor,
}

impl StyledText {
    /// A text shown in the terminal's default color.
    pub fn plain(text: String) -> (r: StyledText)
        ensures
            r.text@ == text@,
            r.color == TextColor::Plain,
    {
        StyledText { text, color: TextColor::Plain }
    }
}

#[derive(Debug, Copy, Clone, PartialEq, Eq, Structural)]
pub enum ColumnAlign {
    LEFT,
    RIGHT,
}

/// How a column reconciles a text's length with its configured width.
#[derive(Debug, Copy, Clone, PartialEq, Eq, Structural)]
pub enum ColumnFit {
    /// Texts are kept as they are.
    NORMAL,
    /// Texts are padded to at least this width.
    MIN(usize),
    /// Texts are truncated, with an ellipsis, to at most this width.
    MAX(usize),
    /// Texts are truncated or padded to exactly this width.
    EXACT(usize),
}

#[derive(Debug, Copy, Clone, PartialEq, Eq, Structural)]
pub struct ColumnConfig {
    pub align: ColumnAlign,
    pub fit: ColumnFit,
    pub left_padding: usize,
    pub right_padding: usize,
}

/// A configured width must leave room for the paddings.
pub open spec fn config_valid(c: ColumnConfig) -> bool {
    match c.fit {
        ColumnFit::NORMAL => true,
        ColumnFit::MIN(n) => n >= c.left_padding + c.right_padding,
        ColumnFit::MAX(n) => n >= c.left_padding + c.right_padding,
        ColumnFit::EXACT(n) => n >= c.left_padding + c.right_padding,
    }
}

/// `s` padded to width `w` on the side that the alignment leaves free.
pub open spec fn align_to(s: Seq<char>, w: nat, align: ColumnAlign) -> Seq<char> {
    match align {
        ColumnAlign::LEFT => pad_end(s, w),
        ColumnAlign::RIGHT => pad_start(s, w),
    }
}

/// The width that a configured width leaves for the text between the paddings.
pub open spec fn inner_width(c: ColumnConfig, n: usize) -> nat {
    (n - c.left_padding - c.right_padding) as nat
}

/// A text as a column with configuration `c` stores it.
pub open spec fn fit_text(c: ColumnConfig, s: Seq<char>) -> Seq<char> {
    match c.fit {
        ColumnFit::NORMAL => s,
        ColumnFit::MIN(n) => align_to(s, inner_width(c, n), c.align),
        ColumnFit::MAX(n) => ellipsize(s, inner_width(c, n)),
        ColumnFit::EXACT(n) => align_to(
            ellipsize(s, inner_width(c, n)),
            inner_width(c, n),
            c.align,
        ),
    }
}

/// A stored text laid out to width `w` between the paddings.
pub open spec fn cell_text(c: ColumnConfig, s: Seq<char>, w: nat) -> Seq<char> {
    spaces(c.left_padding as nat) + align_to(s, w, c.align) + spaces(c.right_padding as nat)
}

/// What a column holds: its configuration, the texts pushed into it as they
/// came, the same texts fitted to the configuration, and the widest fitted
/// text's length.
#[verifier::ext_equal]
pub ghost struct ColumnView {
    pub config: ColumnConfig,
    pub originals: Seq<(Seq<char>, TextColor)>,
    pub rows: Seq<(Seq<char>, TextColor)>,
    pub longest: nat,
}

/// The greatest length among the texts.
pub open spec fn max_len(s: Seq<(Seq<char>, TextColor)>) -> nat
    decreases s.len(),
{
    if s.len() == 0 {
        0
    } else {
        let m = max_len(s.drop_last());
        if s.last().0.len() > m {
            s.last().0.len()
        } else {
            m
        }
    }
}

/// No text is longer than the greatest length.
pub proof fn lemma_max_len_bound(s: Seq<(Seq<char>, TextColor)>)
    ensures
        forall|i: int| 0 <= i < s.len() ==> (#[trigger] s[i]).0.len() <= max_len(s),
    decreases s.len(),
{
    if s.len() > 0 {
        lemma_max_len_bound(s.drop_last());
        assert forall|i: int| 0 <= i < s.len() implies (#[trigger] s[i]).0.len() <= max_len(s) by {
            if i < s.len() - 1 {
                assert(s[i] == s.drop_last()[i]);
            }
        }
    }
}

pub open spec fn styled_view(t: StyledText) -> (Seq<char>, TextColor) {
    (t.text@, t.color)
}

/// A text longer than a maximum width is stored cut to exactly that width
/// (between the paddings), ending in the ellipsis marker, and the column
/// holding it alone renders it exactly as wide as configured; a text
/// shorter than a minimum width is padded to exactly that width.
pub proof fn lemma_truncation_law(c: ColumnConfig, s: Seq<char>)
    requires
        config_valid(c),
    ensures
        match c.fit {
            ColumnFit::MAX(n) => s.len() > inner_width(c, n) && inner_width(c, n) >= 3 ==> {
                &&& fit_text(c, s).len() == inner_width(c, n)
                &&& fit_text(c, s).subrange(inner_width(c, n) - 3, inner_width(c, n) as int)
                    == ellipsis()
                &&& cell_text(c, fit_text(c, s), fit_text(c, s).len()).len() == n
            },
            ColumnFit::MIN(n) => s.len() < inner_width(c, n) ==> {
                &&& fit_text(c, s).len() == inner_width(c, n)
                &&& cell_text(c, fit_text(c, s), fit_text(c, s).len()).len() == n
            },
            _ => true,
        },
{
    match c.fit {
        ColumnFit::MAX(n) => {
            let w = inner_width(c, n);
            if s.len() > w && w >= 3 {
                assert(fit_text(c, s).subrange(w - 3, w as int) =~= ellipsis());
            }
        },
        _ => {},
    }
}

#[derive(Debug, Clone)]
pub struct Column {
    data: Vec<StyledText>,
    original_data: Vec<StyledText>,
    config: ColumnConfig,
    longest: usize,
}

impl View for Column {
    type V = ColumnView;

    closed spec fn view(&self) -> ColumnView {
        ColumnView {
            config: self.config,
            originals: self.original_data@.map_values(|t: StyledText| styled_view(t)),
            rows: self.data@.map_values(|t: StyledText| styled_view(t)),
            longest: self.longest as nat,
        }
    }
}

fn align_string(s: &str, w: usize, align: ColumnAlign) -> (r: String)
    ensures
        r@ == align_to(s@, w as nat, align),
{
    match align {
        ColumnAlign::LEFT => pad_end_string(s, w),
        ColumnAlign::RIGHT => pad_start_string(s, w),
    }
}

impl Column {
    /// Well-formed: the widest entry is as wide as the widest stored text.
    /// `new` makes a well-formed column and `push` keeps it so.
    pub open spec fn wf(&self) -> bool {
        self@.longest == max_len(self@.rows)
    }

    pub fn new(config: ColumnConfig) -> (r: Column)
        requires
            config_valid(config),
        ensures
            r@.config == config,
            r@.originals.len() == 0,
            r@.rows.len() == 0,
            r@.longest == 0,
            r.wf(),
    {
        let r = Column { config, data: Vec::new(), original_data: Vec::new(), longest: 0 };
        assert(r@.originals =~= Seq::empty());
        assert(r@.rows =~= Seq::empty());
        r
    }

    /// Stores `value` fitted to the column's policy, keeping the text as it
    /// came for the wide rendering.
    pub fn push(&mut self, value: StyledText)
        requires
            config_valid(old(self)@.config),
        ensures
            final(self)@.config == old(self)@.config,
            final(self)@.originals == old(self)@.originals.push(styled_view(value)),
            final(self)@.rows == old(self)@.rows.push(
                (fit_text(old(self)@.config, value.text@), value.color),
            ),
            final(self)@.longest == if fit_text(old(self)@.config, value.text@).len()
                > old(self)@.longest {
                fit_text(old(self)@.config, value.text@).len()
            } else {
                old(self)@.longest
            },
            old(self).wf() ==> final(self).wf(),
    {
        let c = self.config;
        let fitted = match c.fit {
            ColumnFit::EXACT(len) => {
                let len = len - c.left_padding - c.right_padding;
                let cut = ellipsize_string(value.text.as_str(), len);
                align_string(cut.as_str(), len, c.align)
            },
            ColumnFit::MIN(min_len) => {
                let min_len = min_len - c.left_padding - c.right_padding;
                align_string(value.text.as_str(), min_len, c.align)
            },
            ColumnFit::MAX(max_len) => {
                let max_len = max_len - c.left_padding - c.right_padding;
                ellipsize_string(value.text.as_str(), max_len)
            },
            ColumnFit::NORMAL => String::from_str(value.text.as_str()),
        };
        let n = fitted.as_str().unicode_len();
        if n > self.longest {
            self.longest = n;
        }
        let color = value.color;
        self.original_data.push(value);
        self.data.push(StyledText { text: fitted, color });
        proof {
            assert(self@.originals =~= old(self)@.originals.push(styled_view(value)));
            assert(self@.rows =~= old(self)@.rows.push(
                (fit_text(old(self)@.config, value.text@), value.color),
            ));
            assert(self@.rows.drop_last() =~= old(self)@.rows);
        }
    }

    /// Row `index` laid out to the widest entry between the paddings, or an
    /// empty string when there is no such row.
    pub fn to_string(&self, index: usize) -> (r: String)
        ensures
            index >= self@.rows.len() ==> r@.len() == 0,
            index < self@.rows.len() ==> r@ == cell_text(
                self@.config,
                self@.rows[index as int].0,
                self@.longest,
            ),
            self.wf() && index < self@.rows.len() ==> r@.len() == self@.longest
                + self@.config.left_padding + self@.config.right_padding,
    {
        proof {
            lemma_max_len_bound(self@.rows);
        }
        if index >= self.data.len() {
            return String::new();
        }
        proof {
            if self.wf() {
                let s = self@.rows[index as int].0;
                assert(s.len() <= self@.longest);
                assert(align_to(s, self@.longest, self@.config.align).len() == self@.longest);
            }
        }
        let left = spaces_string(self.config.left_padding);
        let body = align_string(self.data[index].text.as_str(), self.longest, self.config.align);
        let right = spaces_string(self.config.right_padding);
        left.concat(body.as_str()).concat(right.as_str())
    }

    /// The color of row `index`; plain when there is no such row.
    pub fn color(&self, index: usize) -> (r: TextColor)
        ensures
            index >= self@.rows.len() ==> r == TextColor::Plain,
            index < self@.rows.len() ==> r == self@.rows[index as int].1,
    {
        if index >= self.data.len() {
            TextColor::Plain
        } else {
            self.data[index].color
        }
    }

    /// Row `index` as it was pushed, truncated and padded anew to fill
    /// `available_width` in all, paddings included. Empty when there is no
    /// such row or the width cannot hold the paddings (or three characters).
    pub fn to_wide_string(&self, index: usize, available_width: usize) -> (r: String)
        ensures
            (index >= self@.originals.len() || available_width < self@.config.left_padding
                + self@.config.right_padding || available_width < 3) ==> r@.len() == 0,
            !(index >= self@.originals.len() || available_width < self@.config.left_padding
                + self@.config.right_padding || available_width < 3) ==> r@ == cell_text(
                self@.config,
                ellipsize(
                    self@.originals[index as int].0,
                    (available_width - self@.config.left_padding
                        - self@.config.right_padding) as nat,
                ),
                (available_width - self@.config.left_padding - self@.config.right_padding) as nat,
            ),
    {
        let lp = self.config.left_padding;
        let rp = self.config.right_padding;
        if index >= self.original_data.len() || available_width < lp || available_width - lp < rp
            || available_width < 3 {
            return String::new();
        }
        let width = available_width - lp - rp;
        let cut = ellipsize_string(self.original_data[index].text.as_str(), width);
        let left = spaces_string(lp);
        let body = align_string(cut.as_str(), width, self.config.align);
        let right = spaces_string(rp);
        left.concat(body.as_str()).concat(right.as_str())
    }

    /// The width of every rendered row: the widest entry plus both paddings
    /// (saturating at `usize::MAX`).
    pub fn line_len(&self) -> (r: usize)
        ensures
            r == if self@.longest + self@.config.left_padding + self@.config.right_padding
                <= usize::MAX {
                (self@.longest + self@.config.left_padding + self@.config.right_padding) as usize
            } else {
                usize::MAX
            },
    {
        self.longest.saturating_add(self.config.left_padding).saturating_add(
            self.config.right_padding,
        )
    }

    /// Whether row `row_index` is missing or holds an empty text.
    pub fn is_empty(&self, row_index: usize) -> (r: bool)
        ensures
            r == (row_index >= self@.rows.len() || self@.rows[row_index as int].0.len() == 0),
    {
        if row_index >= self.data.len() {
            true
        } else {
            self.data[row_index].text.as_str().unicode_len() == 0
        }
    }

    /// The number of rows.
    pub fn len(&self) -> (r: usize)
        ensures
            r == self@.rows.len(),
    {
        self.data.len()
    }
}

} // verus!
