//! The search for a font file.
//!
//! fontconfig is asked for the configured family, then for `monospace`, then
//! for `sans-serif`. Where it knows none of them, a few well-known paths are
//! tried. The first file that exists is taken.

use vstd::prelude::*;

use crate::text;

verus! {

/// What the search does next.
pub enum FontStep {
    /// Ask fontconfig for the file that best matches this pattern.
    Query(String),
    /// Test whether this file exists.
    Probe(String),
    /// Load the font from this file.
    Load(String),
    /// There is no font.
    GiveUp,
}

/// A [`FontStep`], with each string as its characters.
pub enum FontStepView {
    Query(Seq<char>),
    Probe(Seq<char>),
    Load(Seq<char>),
    GiveUp,
}

impl View for FontStep {
    type V = FontStepView;

    open spec fn view(&self) -> FontStepView {
        match self {
            FontStep::Query(pattern) => FontStepView::Query(pattern@),
            FontStep::Probe(path) => FontStepView::Probe(path@),
            FontStep::Load(path) => FontStepView::Load(path@),
            FontStep::GiveUp => FontStepView::GiveUp,
        }
    }
}

/// The patterns that fontconfig is asked for, in order.
pub open spec fn font_patterns(family: Seq<char>) -> Seq<Seq<char>> {
    seq![family, "monospace"@, "sans-serif"@]
}

/// The well-known paths of fonts, in the order in which they are tried.
pub open spec fn fallback_fonts() -> Seq<Seq<char>> {
    seq![
        "/usr/share/fonts/TTF/DejaVuSansMono.ttf"@,
        "/usr/share/fonts/truetype/dejavu/DejaVuSansMono.ttf"@,
        "/usr/share/fonts/dejavu-sans-mono-fonts/DejaVuSansMono.ttf"@,
        "/usr/share/fonts/TTF/Hack-Regular.ttf"@,
        "/usr/share/fonts/noto/NotoSansMono-Regular.ttf"@,
        "/usr/share/fonts/truetype/liberation/LiberationMono-Regular.ttf"@,
    ]
}

/// A search for a font under way.
pub struct FontSearch {
    family: String,
    /// How many places were searched without success.
    tried: usize,
    found: Option<String>,
}

/// The state of a search.
pub struct FontSearchView {
    pub family: Seq<char>,
    pub tried: nat,
    pub found: Option<Seq<char>>,
}

impl FontSearchView {
    /// What the search does next.
    pub open spec fn step(self) -> FontStepView {
        match self.found {
            Some(path) => FontStepView::Load(path),
            None => if self.tried < 3 {
                FontStepView::Query(font_patterns(self.family)[self.tried as int])
            } else if self.tried < 9 {
                FontStepView::Probe(fallback_fonts()[self.tried - 3])
            } else {
                FontStepView::GiveUp
            },
        }
    }

    /// The state after the current step: the path that fontconfig named, if
    /// any, and whether the file in question exists.
    pub open spec fn next(self, named: Option<Seq<char>>, exists: bool) -> FontSearchView {
        match self.step() {
            FontStepView::Query(_) => match named {
                Some(path) if exists => FontSearchView { found: Some(path), ..self },
                _ => FontSearchView { tried: self.tried + 1, ..self },
            },
            FontStepView::Probe(path) => if exists {
                FontSearchView { found: Some(path), ..self }
            } else {
                FontSearchView { tried: self.tried + 1, ..self }
            },
            FontStepView::Load(_) => self,
            FontStepView::GiveUp => self,
        }
    }
}

/// The characters of an optional string.
pub open spec fn named_path(path: Option<String>) -> Option<Seq<char>> {
    match path {
        Some(p) => Some(p@),
        None => None,
    }
}

impl View for FontSearch {
    type V = FontSearchView;

    closed spec fn view(&self) -> FontSearchView {
        FontSearchView {
            family: self.family@,
            tried: self.tried as nat,
            found: named_path(self.found),
        }
    }
}

/// The path that fontconfig's answer names: the answer without the white space
/// around it, unless nothing is left of it.
pub fn fc_match_path(answer: &str) -> (path: Option<String>)
    ensures
        named_path(path) == if text::trimmed(answer@).len() == 0 {
            None
        } else {
            Some(text::trimmed(answer@))
        },
{
    let path: String = text::trim(answer);
    if path.as_str().is_empty() {
        None
    } else {
        Some(path)
    }
}

fn fallback_font(i: usize) -> (path: String)
    requires
        i < 6,
    ensures
        path@ == fallback_fonts()[i as int],
{
    if i == 0 {
        "/usr/share/fonts/TTF/DejaVuSansMono.ttf".to_string()
    } else if i == 1 {
        "/usr/share/fonts/truetype/dejavu/DejaVuSansMono.ttf".to_string()
    } else if i == 2 {
        "/usr/share/fonts/dejavu-sans-mono-fonts/DejaVuSansMono.ttf".to_string()
    } else if i == 3 {
        "/usr/share/fonts/TTF/Hack-Regular.ttf".to_string()
    } else if i == 4 {
        "/usr/share/fonts/noto/NotoSansMono-Regular.ttf".to_string()
    } else {
        "/usr/share/fonts/truetype/liberation/LiberationMono-Regular.ttf".to_string()
    }
}

impl FontSearch {
    /// Begin the search for a font of this family.
    pub fn new(family: &str) -> (search: Self)
        ensures
            search@ == (FontSearchView { family: family@, tried: 0, found: None }),
    {
        FontSearch { family: family.to_string(), tried: 0, found: None }
    }

    /// What is to be done next.
    pub fn step(&self) -> (step: FontStep)
        ensures
            step@ == self@.step(),
    {
        match &self.found {
            Some(path) => FontStep::Load(path.clone()),
            None => if self.tried == 0 {
                FontStep::Query(self.family.clone())
            } else if self.tried == 1 {
                FontStep::Query("monospace".to_string())
            } else if self.tried == 2 {
                FontStep::Query("sans-serif".to_string())
            } else if self.tried < 9 {
                FontStep::Probe(fallback_font(self.tried - 3))
            } else {
                FontStep::GiveUp
            },
        }
    }

    /// Go on after the current step: `named` is the path that fontconfig named,
    /// if any (see [`fc_match_path`]), and `exists` says whether the file in
    /// question exists. Once the search is over, nothing changes.
    pub fn report(&mut self, named: Option<String>, exists: bool)
        ensures
            final(self)@ == old(self)@.next(named_path(named), exists),
    {
        match self.step() {
            FontStep::Query(_) => match named {
                Some(path) => {
                    if exists {
                        self.found = Some(path);
                    } else {
                        self.tried = self.tried + 1;
                    }
                },
                None => {
                    self.tried = self.tried + 1;
                },
            },
            FontStep::Probe(path) => {
                if exists {
                    self.found = Some(path);
                } else {
                    self.tried = self.tried + 1;
                }
            },
            FontStep::Load(_) => {},
            FontStep::GiveUp => {},
        }
    }
}

/// The state of a search after the answers so far.
pub open spec fn search_run(
    family: Seq<char>,
    answers: Seq<(Option<Seq<char>>, bool)>,
) -> FontSearchView
    decreases answers.len(),
{
    if answers.len() == 0 {
        FontSearchView { family, tried: 0, found: None }
    } else {
        let last = answers.last();
        search_run(family, answers.drop_last()).next(last.0, last.1)
    }
}

/// Whether the answer to the search's `i`-th step means that a file was found.
pub open spec fn is_hit(answers: Seq<(Option<Seq<char>>, bool)>, i: int) -> bool {
    answers[i].1 && (i < 3 ==> answers[i].0 is Some)
}

/// As long as nothing is found, the search goes through its places in order,
/// and gives up once all nine were tried.
pub proof fn lemma_search_goes_in_order(
    family: Seq<char>,
    answers: Seq<(Option<Seq<char>>, bool)>,
)
    requires
        forall|i: int| 0 <= i < answers.len() ==> !#[trigger] is_hit(answers, i),
    ensures
        search_run(family, answers).found is None,
        search_run(family, answers).family == family,
        search_run(family, answers).tried == if answers.len() < 9 {
            answers.len()
        } else {
            9
        },
        search_run(family, answers).step() is GiveUp <==> answers.len() >= 9,
    decreases answers.len(),
{
    if answers.len() > 0 {
        let past = answers.drop_last();
        assert forall|i: int| 0 <= i < past.len() implies !#[trigger] is_hit(past, i) by {
            assert(!is_hit(answers, i));
        }
        lemma_search_goes_in_order(family, past);
        assert(!is_hit(answers, answers.len() - 1));
    }
}

/// The first file found is taken: it is the one that fontconfig named, or the
/// path that was tried, and no later answer changes it.
pub proof fn lemma_first_font_found_is_taken(
    family: Seq<char>,
    answers: Seq<(Option<Seq<char>>, bool)>,
    hit: int,
)
    requires
        0 <= hit < answers.len(),
        hit < 9,
        is_hit(answers, hit),
        forall|i: int| 0 <= i < hit ==> !#[trigger] is_hit(answers, i),
    ensures
        search_run(family, answers).step() == FontStepView::Load(
            if hit < 3 {
                answers[hit].0->0
            } else {
                fallback_fonts()[hit - 3]
            },
        ),
    decreases answers.len(),
{
    let past = answers.drop_last();
    if hit < past.len() {
        assert forall|i: int| 0 <= i < hit implies !#[trigger] is_hit(past, i) by {
            assert(!is_hit(answers, i));
        }
        assert(is_hit(past, hit));
        lemma_first_font_found_is_taken(family, past, hit);
    } else {
        assert forall|i: int| 0 <= i < past.len() implies !#[trigger] is_hit(past, i) by {
            assert(!is_hit(answers, i));
        }
        lemma_search_goes_in_order(family, past);
    }
}

/// The places in the order in which they are searched, whatever the family:
/// fontconfig is asked for the family, for `monospace` and for `sans-serif`, and
/// then six paths are tried. A search that has found a file loads that file.
pub proof fn lemma_places_of_the_search(search: FontSearchView)
    ensures
        search.found matches Some(path) ==> search.step() == FontStepView::Load(path),
        search.found is None ==> {
            &&& search.tried == 0 ==> search.step() == FontStepView::Query(search.family)
            &&& search.tried == 1 ==> search.step() == FontStepView::Query("monospace"@)
            &&& search.tried == 2 ==> search.step() == FontStepView::Query("sans-serif"@)
            &&& search.tried == 3 ==> search.step() == FontStepView::Probe(
                "/usr/share/fonts/TTF/DejaVuSansMono.ttf"@,
            )
            &&& search.tried == 4 ==> search.step() == FontStepView::Probe(
                "/usr/share/fonts/truetype/dejavu/DejaVuSansMono.ttf"@,
            )
            &&& search.tried == 5 ==> search.step() == FontStepView::Probe(
                "/usr/share/fonts/dejavu-sans-mono-fonts/DejaVuSansMono.ttf"@,
            )
            &&& search.tried == 6 ==> search.step() == FontStepView::Probe(
                "/usr/share/fonts/TTF/Hack-Regular.ttf"@,
            )
            &&& search.tried == 7 ==> search.step() == FontStepView::Probe(
                "/usr/share/fonts/noto/NotoSansMono-Regular.ttf"@,
            )
            &&& search.tried == 8 ==> search.step() == FontStepView::Probe(
                "/usr/share/fonts/truetype/liberation/LiberationMono-Regular.ttf"@,
            )
            &&& search.tried >= 9 ==> search.step() is GiveUp
        },
{
}

/// An answer decides: a file that exists is taken, the one that fontconfig named
/// or the path that was tried; any other answer moves the search one place on;
/// and a search that is over stays as it is. The family never changes.
pub proof fn lemma_answer_decides(search: FontSearchView, named: Option<Seq<char>>, present: bool)
    ensures
        search.next(named, present).family == search.family,
        search.found is Some || search.tried >= 9 ==> search.next(named, present) == search,
        search.found is None && search.tried < 3 ==> if named is Some && present {
            &&& search.next(named, present).found == named
            &&& search.next(named, present).tried == search.tried
        } else {
            &&& search.next(named, present).found is None
            &&& search.next(named, present).tried == search.tried + 1
        },
        search.found is None && 3 <= search.tried < 9 ==> if present {
            &&& search.step() matches FontStepView::Probe(path)
            &&& search.next(named, present).found == Some(path)
            &&& search.next(named, present).tried == search.tried
        } else {
            &&& search.next(named, present).found is None
            &&& search.next(named, present).tried == search.tried + 1
        },
{
}

/// Steps and paths are seen as they are.
pub proof fn lemma_step_is_seen_as_it_is(step: FontStep, path: Option<String>)
    ensures
        step matches FontStep::Query(s) ==> step@ == FontStepView::Query(s@),
        step matches FontStep::Probe(s) ==> step@ == FontStepView::Probe(s@),
        step matches FontStep::Load(s) ==> step@ == FontStepView::Load(s@),
        step is GiveUp ==> step@ is GiveUp,
        path matches Some(s) ==> named_path(path) == Some(s@),
        path is None ==> named_path(path) is None,
{
}

/// A search is seen as it is held.
proof fn lemma_search_is_seen_as_it_is(search: FontSearch)
    ensures
        search@.family == search.family@,
        search@.tried == search.tried,
        search@.found == named_path(search.found),
{
}

} // verus!
