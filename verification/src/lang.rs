//! Interface texts of the four supported languages, and the choice of the
//! language from the name the user gives.

use vstd::prelude::*;
use vstd::string::*;

verus! {

broadcast use vstd::string::group_string_axioms;

/// Every text of the interface.
#[derive(Clone)]
pub struct AppText {
    pub labels: LabelsText,
    pub status: StatusText,
    pub data: DataText,
    pub logs: LogsText,
    pub input: InputText,
    pub messages: MessagesText,
    pub help: HelpText,
    pub about: AboutText,
}

/// Titles and bar texts of the screen.
#[derive(Clone)]
pub struct LabelsText {
    pub left_area: LeftArea,
    pub right_area: RightArea,
    pub top_bar: TopBar,
    pub bottom_bar: BottomBar,
}

/// The listing panel.
#[derive(Clone)]
pub struct LeftArea {
    pub title: String,
}

/// The details panel.
#[derive(Clone)]
pub struct RightArea {
    pub title: String,
}

/// The bar at the bottom of the screen.
#[derive(Clone)]
pub struct BottomBar {
    pub fast_help: String,
    pub delete_text: DeleteText,
}

/// The prompts of the two-step removal.
#[derive(Clone)]
pub struct DeleteText {
    pub press_yn_to_delete: String,
    pub press_enter_to_confirm: String,
}

/// The bar at the top of the screen (no texts of its own yet).
#[derive(Clone, Copy)]
pub struct TopBar;

/// Status messages.
#[derive(Clone)]
pub struct StatusText {
    pub previous_folder: String,
    pub unknown_info: String,
    pub coming_soon: String,
}

/// Labels of the details of an entry.
#[derive(Clone)]
pub struct DataText {
    pub size_human_format: String,
    pub size_byte: String,
    pub owner_uid: String,
    pub owner_gid: String,
    pub inodes: String,
    pub permissions: String,
    pub nlinks: String,
}

/// Log texts (none yet).
#[derive(Clone, Copy)]
pub struct LogsText;

/// Input texts (none yet).
#[derive(Clone, Copy)]
pub struct InputText;

/// Message texts (none yet).
#[derive(Clone, Copy)]
pub struct MessagesText;

/// Help texts (none yet).
#[derive(Clone, Copy)]
pub struct HelpText;

/// About texts (none yet).
#[derive(Clone, Copy)]
pub struct AboutText;

/// The bundled text catalogues.
#[derive(Clone, Copy, Debug, PartialEq, Eq, Structural)]
pub enum Language {
    /// Brazilian Portuguese.
    PtBr,
    /// American English.
    EnUs,
    /// French of France.
    FrFr,
    /// Spanish of Spain.
    EsEs,
}

/// Whether `c` is white space in the sense of Unicode's `White_Space`
/// property, which is what `char::is_whitespace` and `str::trim` use.
pub open spec fn is_white_space(c: char) -> bool {
    let u = c as u32;
    ||| 0x9 <= u <= 0xD
    ||| u == 0x20
    ||| u == 0x85
    ||| u == 0xA0
    ||| u == 0x1680
    ||| 0x2000 <= u <= 0x200A
    ||| u == 0x2028
    ||| u == 0x2029
    ||| u == 0x202F
    ||| u == 0x205F
    ||| u == 0x3000
}

/// `s` without its leading white space.
pub open spec fn trim_start(s: Seq<char>) -> Seq<char>
    decreases s.len(),
{
    if s.len() > 0 && is_white_space(s[0]) {
        trim_start(s.drop_first())
    } else {
        s
    }
}

/// `s` without its trailing white space.
pub open spec fn trim_end(s: Seq<char>) -> Seq<char>
    decreases s.len(),
{
    if s.len() > 0 && is_white_space(s.last()) {
        trim_end(s.drop_last())
    } else {
        s
    }
}

/// `s` without leading and trailing white space.
pub open spec fn trim(s: Seq<char>) -> Seq<char> {
    trim_end(trim_start(s))
}

/// The catalogue chosen for a language name: the trimmed name must be
/// exactly "portuguese", "english", "french" or "spanish"; any other name
/// falls back to English.
pub open spec fn language_for(name: Seq<char>) -> Language {
    let t = trim(name);
    if t == "portuguese"@ {
        Language::PtBr
    } else if t == "english"@ {
        Language::EnUs
    } else if t == "french"@ {
        Language::FrFr
    } else if t == "spanish"@ {
        Language::EsEs
    } else {
        Language::EnUs
    }
}

proof fn lemma_trim_start_skip(s: Seq<char>, k: int)
    requires
        0 <= k <= s.len(),
        forall|q: int| 0 <= q < k ==> is_white_space(#[trigger] s[q]),
        k == s.len() || !is_white_space(s[k]),
    ensures
        trim_start(s) == s.skip(k),
    decreases k,
{
    if k == 0 {
        assert(s.skip(0) =~= s);
    } else {
        let t = s.drop_first();
        assert forall|q: int| 0 <= q < k - 1 implies is_white_space(#[trigger] t[q]) by {
            assert(t[q] == s[q + 1]);
        }
        lemma_trim_start_skip(t, k - 1);
        assert(t.skip(k - 1) =~= s.skip(k));
    }
}

proof fn lemma_trim_end_take(s: Seq<char>, k: int)
    requires
        0 <= k <= s.len(),
        forall|q: int| k <= q < s.len() ==> is_white_space(#[trigger] s[q]),
        k == 0 || !is_white_space(s[k - 1]),
    ensures
        trim_end(s) == s.take(k),
    decreases s.len() - k,
{
    if k == s.len() {
        assert(s.take(k) =~= s);
    } else {
        let t = s.drop_last();
        assert forall|q: int| k <= q < t.len() implies is_white_space(#[trigger] t[q]) by {
            assert(t[q] == s[q]);
        }
        lemma_trim_end_take(t, k);
        assert(t.take(k) =~= s.take(k));
    }
}

proof fn lemma_trim_start_idempotent(s: Seq<char>)
    ensures
        trim_start(trim_start(s)) == trim_start(s),
        trim_start(s).len() > 0 ==> !is_white_space(trim_start(s)[0]),
    decreases s.len(),
{
    if s.len() > 0 && is_white_space(s[0]) {
        lemma_trim_start_idempotent(s.drop_first());
    }
}

proof fn lemma_trim_end_idempotent(s: Seq<char>)
    ensures
        trim_end(trim_end(s)) == trim_end(s),
        trim_end(s).len() > 0 ==> !is_white_space(trim_end(s).last()),
    decreases s.len(),
{
    if s.len() > 0 && is_white_space(s.last()) {
        lemma_trim_end_idempotent(s.drop_last());
    }
}

/// Trimming from the end keeps a leading character that is not white space.
proof fn lemma_trim_end_keeps_start(s: Seq<char>)
    requires
        s.len() > 0 ==> !is_white_space(s[0]),
    ensures
        trim_end(s).len() > 0 ==> !is_white_space(trim_end(s)[0]),
        trim_end(s).len() > 0 ==> trim_end(s)[0] == s[0],
    decreases s.len(),
{
    if s.len() > 0 && is_white_space(s.last()) {
        if s.len() == 1 {
            assert(false);
        }
        lemma_trim_end_keeps_start(s.drop_last());
    }
}

/// Trimming a trimmed name changes nothing.
pub proof fn lemma_trim_idempotent(s: Seq<char>)
    ensures
        trim(trim(s)) == trim(s),
{
    let a = trim_start(s);
    lemma_trim_start_idempotent(s);
    lemma_trim_end_keeps_start(a);
    let t = trim_end(a);
    lemma_trim_end_idempotent(a);
    if t.len() > 0 {
        assert(trim_start(t) == t);
    } else {
        assert(trim_start(t) == t);
    }
}

/// A language name and its trimmed form choose the same catalogue.
pub proof fn lemma_language_of_trimmed(name: Seq<char>)
    ensures
        language_for(trim(name)) == language_for(name),
{
    lemma_trim_idempotent(name);
}

fn is_white_space_char(c: char) -> (r: bool)
    ensures
        r == is_white_space(c),
{
    let u = c as u32;
    (0x9 <= u && u <= 0xD) || u == 0x20 || u == 0x85 || u == 0xA0 || u == 0x1680 || (0x2000 <= u
        && u <= 0x200A) || u == 0x2028 || u == 0x2029 || u == 0x202F || u == 0x205F || u == 0x3000
}

/// Whether the characters `lo..hi` of `s` spell `word`.
fn spells(s: &str, lo: usize, hi: usize, word: &str) -> (r: bool)
    requires
        lo <= hi <= s@.len(),
    ensures
        r == (s@.subrange(lo as int, hi as int) == word@),
{
    let n = word.unicode_len();
    if hi - lo != n {
        proof {
            assert(s@.subrange(lo as int, hi as int).len() != word@.len());
        }
        return false;
    }
    let mut k: usize = 0;
    while k < n
        invariant
            lo <= hi <= s@.len(),
            hi - lo == n,
            n == word@.len(),
            k <= n,
            forall|q: int| 0 <= q < k ==> s@[lo + q] == word@[q],
        decreases n - k,
    {
        if s.get_char(lo + k) != word.get_char(k) {
            proof {
                assert(s@.subrange(lo as int, hi as int)[k as int] != word@[k as int]);
            }
            return false;
        }
        k = k + 1;
    }
    assert(s@.subrange(lo as int, hi as int) =~= word@);
    true
}

/// Chooses the text catalogue for a language name (see [`language_for`]).
pub fn select_language(name: &str) -> (r: Language)
    ensures
        r == language_for(name@),
{
    let n = name.unicode_len();
    let mut lo: usize = 0;
    while lo < n && is_white_space_char(name.get_char(lo))
        invariant
            n == name@.len(),
            lo <= n,
            forall|q: int| 0 <= q < lo ==> is_white_space(#[trigger] name@[q]),
        decreases n - lo,
    {
        lo = lo + 1;
    }
    let mut hi: usize = n;
    while hi > lo && is_white_space_char(name.get_char(hi - 1))
        invariant
            n == name@.len(),
            lo <= hi <= n,
            forall|q: int| hi <= q < n ==> is_white_space(#[trigger] name@[q]),
        decreases hi - lo,
    {
        hi = hi - 1;
    }
    proof {
        let s = name@;
        lemma_trim_start_skip(s, lo as int);
        let t = s.skip(lo as int);
        assert forall|q: int| hi - lo <= q < t.len() implies is_white_space(#[trigger] t[q]) by {
            assert(t[q] == s[q + lo]);
        }
        if hi > lo {
            assert(t[hi - lo - 1] == s[hi - 1]);
        }
        lemma_trim_end_take(t, hi - lo);
        assert(t.take(hi - lo) =~= s.subrange(lo as int, hi as int));
    }
    if spells(name, lo, hi, "portuguese") {
        Language::PtBr
    } else if spells(name, lo, hi, "english") {
        Language::EnUs
    } else if spells(name, lo, hi, "french") {
        Language::FrFr
    } else if spells(name, lo, hi, "spanish") {
        Language::EsEs
    } else {
        Language::EnUs
    }
}

} // verus!
