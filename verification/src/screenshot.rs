//! Screenshots: their size, their file and how they are attached.

use crate::ascii::{decimal, push_decimal};
use crate::text::{same_str, views};
use vstd::prelude::*;

verus! {

/// The longer edge is capped, so that a large shot does not balloon into a huge
/// payload.
pub const MAX_EDGE: i32 = 1568;

/// The length of an edge that keeps the proportions of a picture whose longer
/// edge is scaled down to the greatest length, but at least one pixel.
pub open spec fn scaled(edge: int, longer: int) -> int {
    let n = edge * MAX_EDGE / longer;
    if n < 1 {
        1
    } else {
        n
    }
}

/// The size to scale a picture to; nothing if it is not too large.
pub open spec fn scaled_size(width: int, height: int) -> Option<(int, int)> {
    if width <= MAX_EDGE && height <= MAX_EDGE {
        None
    } else if width >= height {
        Some((MAX_EDGE as int, scaled(height, width)))
    } else {
        Some((scaled(width, height), MAX_EDGE as int))
    }
}

fn scale(edge: i32, longer: i32) -> (r: i32)
    requires
        0 <= edge <= longer,
        MAX_EDGE < longer,
    ensures
        r == scaled(edge as int, longer as int),
{
    let product: i64 = edge as i64 * MAX_EDGE as i64;
    let n: i64 = product / longer as i64;
    proof {
        lemma_scaled(edge as int, longer as int);
    }
    if n < 1 {
        1
    } else {
        n as i32
    }
}

proof fn lemma_scaled(edge: int, longer: int)
    requires
        0 <= edge <= longer,
        MAX_EDGE < longer,
    ensures
        ({
            let n = edge * MAX_EDGE / longer;
            &&& 0 <= n <= MAX_EDGE
            &&& n <= edge
            &&& n * longer <= edge * MAX_EDGE < (n + 1) * longer
        }),
{
    let p = edge * MAX_EDGE;
    let n = p / longer;
    vstd::arithmetic::div_mod::lemma_fundamental_div_mod(p, longer);
    vstd::arithmetic::div_mod::lemma_mod_pos_bound(p, longer);
    vstd::arithmetic::div_mod::lemma_div_pos_is_pos(p, longer);
    assert(longer * n == n * longer) by (nonlinear_arith);
    assert((n + 1) * longer == n * longer + longer) by (nonlinear_arith);
    assert(n <= edge) by (nonlinear_arith)
        requires
            n * longer <= edge * 1568,
            longer > 1568,
            edge >= 0,
    ;
    assert(n <= 1568) by (nonlinear_arith)
        requires
            n * longer <= edge * 1568,
            0 <= edge <= longer,
            longer > 1568,
    ;
}

/// The size to scale a picture to; nothing if it is not too large.
pub fn target_size(width: i32, height: i32) -> (r: Option<(i32, i32)>)
    requires
        0 <= width,
        0 <= height,
    ensures
        match r {
            Some((w, h)) => scaled_size(width as int, height as int) == Some((w as int, h as int)),
            None => scaled_size(width as int, height as int) is None,
        },
{
    if width <= MAX_EDGE && height <= MAX_EDGE {
        None
    } else if width >= height {
        Some((MAX_EDGE, scale(height, width)))
    } else {
        Some((scale(width, height), MAX_EDGE))
    }
}

/// No edge of a picture that is attached is too long; one that is scaled down
/// gets no larger, and keeps its proportions to within one pixel.
pub proof fn law_scaling_keeps_proportions(width: int, height: int)
    requires
        width >= 1,
        height >= 1,
    ensures
        match scaled_size(width, height) {
            Some((w, h)) => {
                &&& 1 <= w <= MAX_EDGE
                &&& 1 <= h <= MAX_EDGE
                &&& w <= width
                &&& h <= height
                &&& width >= height && h > 1 ==> h * width <= height * w < (h + 1) * width
                &&& width < height && w > 1 ==> w * height <= width * h < (w + 1) * height
            },
            None => width <= MAX_EDGE && height <= MAX_EDGE,
        },
{
    if width > MAX_EDGE || height > MAX_EDGE {
        if width >= height {
            lemma_scaled(height, width);
        } else {
            lemma_scaled(width, height);
        }
    }
}

/// Name of the temporary file of a process.
pub open spec fn temp_text(pid: nat) -> Seq<char> {
    "elementary-intelligence-"@ + decimal(pid) + ".png"@
}

/// Name of the temporary file of a process.
pub fn temp_name(pid: u32) -> (r: String)
    ensures
        r@ == "elementary-intelligence-"@ + decimal(pid as nat) + ".png"@,
        r@ == temp_text(pid as nat),
{
    let mut out = "elementary-intelligence-".to_owned();
    push_decimal(&mut out, pid as u64);
    out.append(".png");
    out
}

/// The data URL of a PNG picture that is given in base64.
pub open spec fn picture_url(base64: Seq<char>) -> Seq<char> {
    "data:image/png;base64,"@ + base64
}

/// A PNG picture, given in base64, as a data URL.
pub fn data_url(base64: &str) -> (r: String)
    ensures
        r@ == "data:image/png;base64,"@ + base64@,
        r@ == picture_url(base64@),
{
    let mut out = "data:image/png;base64,".to_owned();
    out.append(base64);
    out
}

/// What to do once the compositor has answered.
pub enum Answered {
    /// Encode this file, then remove the listed ones.
    Encode { file: String, remove: Vec<String> },
    /// Remove the listed files; the error is reported.
    Fail { remove: Vec<String>, error: String },
}

pub enum AnsweredData {
    Encode(Seq<char>, Seq<Seq<char>>),
    Fail(Seq<Seq<char>>, Seq<char>),
}

impl View for Answered {
    type V = AnsweredData;

    open spec fn view(&self) -> AnsweredData {
        match self {
            Answered::Encode { file, remove } => AnsweredData::Encode(file@, views(remove@)),
            Answered::Fail { remove, error } => AnsweredData::Fail(views(remove@), error@),
        }
    }
}

/// The compositor may write another file than it was asked to; neither file is
/// left behind.
pub open spec fn answered_with(asked: Seq<char>, success: bool, used: Seq<char>) -> AnsweredData {
    if !success {
        AnsweredData::Fail(seq![asked], "compositor reported failure"@)
    } else if used != asked {
        AnsweredData::Encode(used, seq![used, asked])
    } else {
        AnsweredData::Encode(used, seq![used])
    }
}

/// What to do once the compositor has answered: `asked` is the file that it was
/// asked to write, `used` the one that it says it wrote.
pub fn answered(asked: &str, success: bool, used: &str) -> (r: Answered)
    ensures
        r@ == answered_with(asked@, success, used@),
{
    let mut remove: Vec<String> = Vec::new();
    if !success {
        remove.push(asked.to_owned());
        assert(views(remove@) =~= seq![asked@]);
        return Answered::Fail {
            remove: remove,
            error: "compositor reported failure".to_owned(),
        };
    }
    remove.push(used.to_owned());
    if !same_str(used, asked) {
        remove.push(asked.to_owned());
        assert(views(remove@) =~= seq![used@, asked@]);
    } else {
        assert(views(remove@) =~= seq![used@]);
    }
    Answered::Encode { file: used.to_owned(), remove: remove }
}

/// No file is left behind, neither the one that was asked for nor the one that
/// was written.
pub proof fn law_no_file_is_left(asked: Seq<char>, success: bool, used: Seq<char>)
    ensures
        match answered_with(asked, success, used) {
            AnsweredData::Encode(file, remove) => file == used && remove.contains(used)
                && remove.contains(asked),
            AnsweredData::Fail(remove, _) => remove.contains(asked),
        },
{
    match answered_with(asked, success, used) {
        AnsweredData::Encode(_, remove) => {
            assert(remove[0] == used);
            if used != asked {
                assert(remove[1] == asked);
            }
        },
        AnsweredData::Fail(remove, _) => {
            assert(remove[0] == asked);
        },
    }
}

} // verus!
