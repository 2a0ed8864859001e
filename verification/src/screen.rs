//! The pane compositor and render driver: every cell of every pane is drawn
//! by absolute cursor addressing, truncated and right-padded to the pane
//! width so nothing bleeds through from an earlier, longer frame. The whole
//! screen is repainted each cycle; the output is pinned, character for
//! character, as a function of the listings, the selection and the geometry.
use vstd::prelude::*;
use vstd::string::*;
use crate::entry::{Entry, EntryKind, EntryView, views_of};
use crate::listing::Listing;

verus! {

pub open spec fn dec_digit(d: int) -> char {
    if d == 0 {
        '0'
    } else if d == 1 {
        '1'
    } else if d == 2 {
        '2'
    } else if d == 3 {
        '3'
    } else if d == 4 {
        '4'
    } else if d == 5 {
        '5'
    } else if d == 6 {
        '6'
    } else if d == 7 {
        '7'
    } else if d == 8 {
        '8'
    } else {
        '9'
    }
}

/// The decimal digits of `n`, most significant first.
pub open spec fn dec_digits(n: int) -> Seq<char>
    decreases n,
{
    if n < 10 {
        seq![dec_digit(n)]
    } else {
        dec_digits(n / 10).push(dec_digit(n % 10))
    }
}

/// The ANSI cursor-position sequence: ESC `[` row `;` column `H`, one-based.
pub open spec fn goto_escape(x: int, y: int) -> Seq<char> {
    seq!['\x1b', '['] + dec_digits(y) + seq![';'] + dec_digits(x) + seq!['H']
}

/// Relies on `termion::cursor::Goto`: converted to text it is exactly the
/// ANSI cursor-position sequence `ESC [ row ; column H`, with the row first
/// and both coordinates in decimal. `Goto` is one-based.
#[verifier::external_body]
fn goto(x: u16, y: u16) -> (r: String)
    requires
        1 <= x,
        1 <= y,
    ensures
        r@ == goto_escape(x as int, y as int),
{
    String::from(termion::cursor::Goto(x, y))
}

pub open spec fn reset_style() -> Seq<char> {
    "\x1b[0m"@
}

pub open spec fn highlight_style() -> Seq<char> {
    "\x1b[7m"@
}

pub open spec fn denied_style() -> Seq<char> {
    "\x1b[1;31m"@
}

pub open spec fn header_style() -> Seq<char> {
    "\x1b[1;32m"@
}

/// The color an entry of kind `k` is painted with: directories blue,
/// symlinks cyan, regular files white; all bold.
pub open spec fn color_spec(k: EntryKind) -> Seq<char> {
    match k {
        EntryKind::Directory => "\x1b[1;34m"@,
        EntryKind::Symlink => "\x1b[1;36m"@,
        EntryKind::Regular => "\x1b[1;37m"@,
    }
}

/// The escape sequence that paints an entry of kind `k`.
pub fn color_of(k: EntryKind) -> (r: &'static str)
    ensures
        r@ == color_spec(k),
{
    match k {
        EntryKind::Directory => "\x1b[1;34m",
        EntryKind::Symlink => "\x1b[1;36m",
        EntryKind::Regular => "\x1b[1;37m",
    }
}

/// `content` cut down to at most `width` characters.
pub open spec fn clip(content: Seq<char>, width: nat) -> Seq<char> {
    if content.len() <= width {
        content
    } else {
        content.subrange(0, width as int)
    }
}

pub open spec fn pad_spaces(n: nat) -> Seq<char>
    decreases n,
{
    if n == 0 {
        Seq::empty()
    } else {
        pad_spaces((n - 1) as nat).push(' ')
    }
}

/// One positioned cell: go to `(x, y)`, switch to `color`, write `content`
/// clipped to `width`, reset the style, and pad with spaces to exactly
/// `width` characters.
pub open spec fn cell_output(
    x: int,
    y: int,
    width: nat,
    color: Seq<char>,
    content: Seq<char>,
) -> Seq<char> {
    goto_escape(x, y) + color + clip(content, width) + reset_style() + pad_spaces(
        (width - clip(content, width).len()) as nat,
    )
}

/// Writes `content` at `(x, y)` in `color`, truncated to `width` and
/// right-padded with spaces to exactly fill it.
pub fn print_width(x: u16, y: u16, width: u16, color: &str, content: &str) -> (r: String)
    requires
        1 <= x,
        1 <= y,
    ensures
        r@ == cell_output(x as int, y as int, width as nat, color@, content@),
{
    let ghost w_spec = width as nat;
    let mut out = goto(x, y);
    out.append(color);
    let len = content.unicode_len();
    let w = width as usize;
    let shown: usize;
    if len <= w {
        out.append(content);
        shown = len;
    } else {
        let t = content.substring_char(0, w);
        out.append(t);
        shown = w;
    }
    proof {
        assert(out@ =~= goto_escape(x as int, y as int) + color@ + clip(content@, w_spec));
    }
    out.append("\x1b[0m");
    let ghost head = goto_escape(x as int, y as int) + color@ + clip(content@, w_spec)
        + reset_style();
    proof {
        assert(out@ =~= head + pad_spaces(0));
    }
    let mut k: usize = shown;
    while k < w
        invariant
            shown <= k <= w || (k == shown && w <= shown),
            shown == clip(content@, w_spec).len(),
            w == w_spec,
            out@ == head + pad_spaces((k - shown) as nat),
        decreases w - k,
    {
        out.append(" ");
        proof {
            reveal_strlit(" ");
            assert(" "@ =~= seq![' ']);
            assert(head + pad_spaces((k + 1 - shown) as nat) =~= (head + pad_spaces(
                (k - shown) as nat,
            )) + " "@);
        }
        k = k + 1;
    }
    proof {
        assert(out@ =~= cell_output(x as int, y as int, w_spec, color@, content@));
    }
    out
}

/// Row `i` of a pane at `(x, y)`: blank past the end of the listing, the
/// selected entry highlighted, every other entry in its kind's color.
pub open spec fn pane_row(
    x: int,
    y: int,
    index: int,
    entries: Seq<EntryView>,
    width: nat,
    i: int,
) -> Seq<char> {
    if i >= entries.len() {
        cell_output(x + 1, y + 1 + i, width, reset_style(), Seq::empty())
    } else if i == index {
        cell_output(x + 1, y + 1 + i, width, highlight_style(), entries[i].name)
    } else {
        cell_output(x + 1, y + 1 + i, width, color_spec(entries[i].kind), entries[i].name)
    }
}

pub open spec fn pane_rows(
    x: int,
    y: int,
    index: int,
    entries: Seq<EntryView>,
    width: nat,
    rows: int,
) -> Seq<char>
    decreases rows,
{
    if rows <= 0 {
        Seq::empty()
    } else {
        pane_rows(x, y, index, entries, width, rows - 1) + pane_row(
            x,
            y,
            index,
            entries,
            width,
            rows - 1,
        )
    }
}

/// A whole pane: `height` rows of entries, or — when the directory was
/// denied — `height` blank rows with a permission notice on the third screen
/// row and no entry content at all.
pub open spec fn pane_output(
    x: int,
    y: int,
    index: int,
    entries: Seq<EntryView>,
    denied: bool,
    width: nat,
    height: nat,
) -> Seq<char> {
    if denied {
        pane_rows(x, y, 0, Seq::empty(), width, height as int) + cell_output(
            x + 1,
            3,
            width,
            denied_style(),
            "Permission Denied"@,
        )
    } else {
        pane_rows(x, y, index, entries, width, height as int)
    }
}

/// Composites one pane: `height` rows at `(x, y)`, each exactly `width`
/// characters, the entry at `index` highlighted. A denied pane shows blank
/// rows and a permission notice instead, with no entry drawn.
pub fn render_pane(
    x: u16,
    y: u16,
    index: i32,
    file_names: &Vec<Entry>,
    permission_denied: bool,
    width: u16,
    height: u16,
) -> (r: String)
    requires
        x < u16::MAX,
        y + height <= u16::MAX,
    ensures
        r@ == pane_output(
            x as int,
            y as int,
            index as int,
            views_of(file_names@),
            permission_denied,
            width as nat,
            height as nat,
        ),
{
    let ghost vs = views_of(file_names@);
    let mut out = String::new();
    if permission_denied {
        let mut i: u16 = 0;
        proof {
            assert(out@ =~= pane_rows(x as int, y as int, 0, Seq::empty(), width as nat, 0));
        }
        while i < height
            invariant
                i <= height,
                x < u16::MAX,
                y + height <= u16::MAX,
                out@ == pane_rows(x as int, y as int, 0, Seq::empty(), width as nat, i as int),
            decreases height - i,
        {
            let row = print_width(x + 1, y + 1 + i, width, "\x1b[0m", "");
            out.append(row.as_str());
            proof {
                reveal_strlit("");
                assert(""@ =~= Seq::<char>::empty());
                assert(out@ =~= pane_rows(
                    x as int,
                    y as int,
                    0,
                    Seq::empty(),
                    width as nat,
                    i + 1,
                ));
            }
            i = i + 1;
        }
        let notice = print_width(x + 1, 3, width, "\x1b[1;31m", "Permission Denied");
        out.append(notice.as_str());
        proof {
            assert(out@ =~= pane_output(
                x as int,
                y as int,
                index as int,
                vs,
                true,
                width as nat,
                height as nat,
            ));
        }
        return out;
    }
    let mut i: u16 = 0;
    proof {
        assert(out@ =~= pane_rows(x as int, y as int, index as int, vs, width as nat, 0));
    }
    while i < height
        invariant
            i <= height,
            x < u16::MAX,
            y + height <= u16::MAX,
            vs == views_of(file_names@),
            out@ == pane_rows(x as int, y as int, index as int, vs, width as nat, i as int),
        decreases height - i,
    {
        let row: String;
        if (i as usize) >= file_names.len() {
            row = print_width(x + 1, y + 1 + i, width, "\x1b[0m", "");
            proof {
                reveal_strlit("");
                assert(""@ =~= Seq::<char>::empty());
            }
        } else if index == i as i32 {
            row = print_width(
                x + 1,
                y + 1 + i,
                width,
                "\x1b[7m",
                file_names[i as usize].name.as_str(),
            );
        } else {
            let e = &file_names[i as usize];
            row = print_width(x + 1, y + 1 + i, width, color_of(e.kind), e.name.as_str());
        }
        out.append(row.as_str());
        proof {
            assert(row@ == pane_row(x as int, y as int, index as int, vs, width as nat, i as int));
            assert(out@ =~= pane_rows(x as int, y as int, index as int, vs, width as nat, i + 1));
        }
        i = i + 1;
    }
    out
}

/// One full repaint: the metadata row, the current-directory header, and the
/// parent, current and child panes, in the order they are written out.
pub open spec fn screen_output(
    current_dir: Seq<char>,
    metadata: Seq<char>,
    parent: Seq<EntryView>,
    current: Seq<EntryView>,
    index: int,
    child: Seq<EntryView>,
    child_denied: bool,
    width: nat,
    height: nat,
) -> Seq<char> {
    let pw = width / 3;
    cell_output(1, 2, width, Seq::empty(), metadata) + cell_output(
        1,
        1,
        width,
        header_style(),
        current_dir,
    ) + pane_output(0, 2, -1, parent, false, pw, (height - 1) as nat) + pane_output(
        width as int / 3,
        2,
        index,
        current,
        false,
        pw,
        (height - 1) as nat,
    ) + pane_output(
        2 * width as int / 3,
        2,
        -1,
        child,
        child_denied,
        pw,
        (height - 1) as nat,
    )
}

/// Composites the whole screen from what one cycle computed: the current
/// directory header, the selected entry's metadata line, and the three
/// listings. The parent and current panes always render normally; only the
/// child pane can be in the denied state.
pub fn render(
    current_dir: &str,
    metadata: &str,
    parent: &Vec<Entry>,
    current: &Vec<Entry>,
    index: i32,
    child: &Listing,
    width: u16,
    height: u16,
) -> (r: String)
    requires
        1 <= height,
        height + 1 <= u16::MAX,
    ensures
        r@ == screen_output(
            current_dir@,
            metadata@,
            views_of(parent@),
            views_of(current@),
            index as int,
            child.spec_entries(),
            child.is_denied(),
            width as nat,
            height as nat,
        ),
{
    let pane_width = width / 3;
    let x1 = width / 3;
    let x2 = ((2 * (width as u32)) / 3) as u16;
    proof {
        assert(2 * (width as u32) <= 131070);
        assert((2 * (width as u32)) / 3 <= 43690);
        assert(x2 as int == 2 * width as int / 3);
        assert(x1 as int == width as int / 3);
    }
    let mut out = print_width(1, 2, width, "", metadata);
    proof {
        reveal_strlit("");
        assert(""@ =~= Seq::<char>::empty());
    }
    let header = print_width(1, 1, width, "\x1b[1;32m", current_dir);
    out.append(header.as_str());
    let p_pane = render_pane(0, 2, -1, parent, false, pane_width, height - 1);
    out.append(p_pane.as_str());
    let c_pane = render_pane(x1, 2, index, current, false, pane_width, height - 1);
    out.append(c_pane.as_str());
    let child_pane: String;
    match child {
        Listing::Entries(v) => {
            child_pane = render_pane(x2, 2, -1, v, false, pane_width, height - 1);
        },
        Listing::Denied => {
            let none: Vec<Entry> = Vec::new();
            child_pane = render_pane(x2, 2, -1, &none, true, pane_width, height - 1);
            proof {
                assert(views_of(none@) =~= Seq::<EntryView>::empty());
            }
        },
    }
    out.append(child_pane.as_str());
    proof {
        assert(out@ =~= screen_output(
            current_dir@,
            metadata@,
            views_of(parent@),
            views_of(current@),
            index as int,
            child.spec_entries(),
            child.is_denied(),
            width as nat,
            height as nat,
        ));
    }
    out
}

/// Full-repaint determinism: the composed screen is a function of the
/// listing views, the selection index and the geometry alone, so two cycles
/// over identical inputs emit byte-identical output.
pub proof fn lemma_render_deterministic(
    r1: Seq<char>,
    r2: Seq<char>,
    current_dir: Seq<char>,
    metadata: Seq<char>,
    parent: Seq<EntryView>,
    current: Seq<EntryView>,
    index: int,
    child: Seq<EntryView>,
    child_denied: bool,
    width: nat,
    height: nat,
)
    requires
        r1 == screen_output(
            current_dir,
            metadata,
            parent,
            current,
            index,
            child,
            child_denied,
            width,
            height,
        ),
        r2 == screen_output(
            current_dir,
            metadata,
            parent,
            current,
            index,
            child,
            child_denied,
            width,
            height,
        ),
    ensures
        r1 == r2,
{
}

} // verus!
