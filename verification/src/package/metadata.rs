//! Validated package metadata (PMS 7), built from the raw variables that an ebuild's
//! metadata phase or a metadata cache gives.
use crate::deps::atom::Atom;
use crate::deps::expression::{ExprView, render_all};
use crate::deps::useflag::{IUseEntry, UseFlag, UseFlagPrefix, iuse_name, leading_prefix, prefix_text};
use crate::deps::{DepExpression, ExpressionItem, ExpressionKind, dep_expression_of};
use crate::eapi::{Eapi, eapi_number, eapi_of, eapi_text};
use crate::error::{Error, subject_message};
use crate::grammar::{NameKind, is_name};
use crate::keyword::{Keyword, KeywordView, is_keyword_text, keyword_parts, keyword_text};
use crate::package::slot::{PackageSlot, SlotView, is_slot_name, is_slot_text, slot_error, slot_text};
use crate::repository::Eclass;
use crate::text::{append_str, join_strings, join_words, push_char, split_by, split_text, str_eq, texts, trim, trim_ws};
use vstd::prelude::*;

verus! {

/// The metadata variables.
#[derive(Clone, Copy, Debug, PartialEq, Eq, Structural)]
pub enum MetaVar {
    Eapi,
    Description,
    Homepage,
    SrcUri,
    License,
    Properties,
    Keywords,
    Inherited,
    Restrict,
    DefinedPhases,
    IUse,
    RequiredUse,
    Slot,
    Depend,
    BDepend,
    IDepend,
    PDepend,
    RDepend,
}

/// The name a variable is stored under.
pub open spec fn meta_name(v: MetaVar) -> Seq<char> {
    match v {
        MetaVar::Eapi => "EAPI"@,
        MetaVar::Description => "DESCRIPTION"@,
        MetaVar::Homepage => "HOMEPAGE"@,
        MetaVar::SrcUri => "SRC_URI"@,
        MetaVar::License => "LICENSE"@,
        MetaVar::Properties => "PROPERTIES"@,
        MetaVar::Keywords => "KEYWORDS"@,
        MetaVar::Inherited => "INHERITED"@,
        MetaVar::Restrict => "RESTRICT"@,
        MetaVar::DefinedPhases => "DEFINED_PHASES"@,
        MetaVar::IUse => "IUSE"@,
        MetaVar::RequiredUse => "REQUIRED_USE"@,
        MetaVar::Slot => "SLOT"@,
        MetaVar::Depend => "DEPEND"@,
        MetaVar::BDepend => "BDEPEND"@,
        MetaVar::IDepend => "IDEPEND"@,
        MetaVar::PDepend => "PDEPEND"@,
        MetaVar::RDepend => "RDEPEND"@,
    }
}

impl MetaVar {
    /// Returns the name this variable is stored under.
    pub fn name(self) -> (r: &'static str)
        ensures
            r@ == meta_name(self),
    {
        match self {
            MetaVar::Eapi => "EAPI",
            MetaVar::Description => "DESCRIPTION",
            MetaVar::Homepage => "HOMEPAGE",
            MetaVar::SrcUri => "SRC_URI",
            MetaVar::License => "LICENSE",
            MetaVar::Properties => "PROPERTIES",
            MetaVar::Keywords => "KEYWORDS",
            MetaVar::Inherited => "INHERITED",
            MetaVar::Restrict => "RESTRICT",
            MetaVar::DefinedPhases => "DEFINED_PHASES",
            MetaVar::IUse => "IUSE",
            MetaVar::RequiredUse => "REQUIRED_USE",
            MetaVar::Slot => "SLOT",
            MetaVar::Depend => "DEPEND",
            MetaVar::BDepend => "BDEPEND",
            MetaVar::IDepend => "IDEPEND",
            MetaVar::PDepend => "PDEPEND",
            MetaVar::RDepend => "RDEPEND",
        }
    }

    /// Returns the name as an owned string.
    pub fn to_string(self) -> (r: String)
        ensures
            r@ == meta_name(self),
    {
        self.name().to_owned()
    }
}

/// Errors of building package metadata.
#[derive(Debug)]
pub enum PackageMetadataError {
    /// A required variable is empty.
    Empty(MetaVar),
    /// A required variable is missing.
    Missing(MetaVar),
    /// The metadata's EAPI differs from the EAPI the ebuild was sourced with.
    EapiMismatch { expected: Eapi, found: Eapi },
    /// A variable holds an invalid value.
    Invalid { var: MetaVar, source: Error },
}

/// Model of a metadata error; an invalid value by the message of its cause.
pub enum MetaErrorView {
    Empty(MetaVar),
    Missing(MetaVar),
    EapiMismatch(Eapi, Eapi),
    Invalid(MetaVar, Seq<char>),
}

impl View for PackageMetadataError {
    type V = MetaErrorView;

    open spec fn view(&self) -> MetaErrorView {
        match self {
            PackageMetadataError::Empty(v) => MetaErrorView::Empty(*v),
            PackageMetadataError::Missing(v) => MetaErrorView::Missing(*v),
            PackageMetadataError::EapiMismatch { expected, found } => MetaErrorView::EapiMismatch(*expected, *found),
            PackageMetadataError::Invalid { var, source } => MetaErrorView::Invalid(*var, source.text()),
        }
    }
}

/// The description of a metadata error.
pub open spec fn meta_error_text(e: MetaErrorView) -> Seq<char> {
    match e {
        MetaErrorView::Empty(v) => "required metadata variable '"@ + meta_name(v) + "' is empty"@,
        MetaErrorView::Missing(v) => "required metadata variable '"@ + meta_name(v) + "' is missing"@,
        MetaErrorView::EapiMismatch(expected, found) => "metadata EAPI '"@ + eapi_text(found)
            + "' does not match the sourced EAPI '"@ + eapi_text(expected) + "'"@,
        MetaErrorView::Invalid(v, _) => "invalid value for metadata variable '"@ + meta_name(v) + "'"@,
    }
}

impl PackageMetadataError {
    /// Returns the description of this error.
    pub fn to_string(&self) -> (r: String)
        ensures
            r@ == meta_error_text(self@),
    {
        match self {
            PackageMetadataError::Empty(v) => {
                let mut s = "required metadata variable '".to_owned();
                append_str(&mut s, v.name());
                append_str(&mut s, "' is empty");
                s
            },
            PackageMetadataError::Missing(v) => {
                let mut s = "required metadata variable '".to_owned();
                append_str(&mut s, v.name());
                append_str(&mut s, "' is missing");
                s
            },
            PackageMetadataError::EapiMismatch { expected, found } => {
                let mut s = "metadata EAPI '".to_owned();
                append_str(&mut s, found.as_str());
                append_str(&mut s, "' does not match the sourced EAPI '");
                append_str(&mut s, expected.as_str());
                append_str(&mut s, "'");
                s
            },
            PackageMetadataError::Invalid { var, .. } => {
                let mut s = "invalid value for metadata variable '".to_owned();
                append_str(&mut s, var.name());
                append_str(&mut s, "'");
                s
            },
        }
    }
}

/// The value stored under `name`: the last one given.
pub open spec fn raw_get(vals: Seq<(Seq<char>, Seq<char>)>, name: Seq<char>) -> Option<Seq<char>>
    decreases vals.len(),
{
    if vals.len() == 0 {
        None
    } else if vals.last().0 == name {
        Some(vals.last().1)
    } else {
        raw_get(vals.drop_last(), name)
    }
}

/// The value of `var`, empty where it is missing.
pub open spec fn raw_value(vals: Seq<(Seq<char>, Seq<char>)>, var: MetaVar) -> Seq<char> {
    match raw_get(vals, meta_name(var)) {
        Some(v) => v,
        None => Seq::empty(),
    }
}

/// The trimmed value of an optional variable.
pub open spec fn optional_value(vals: Seq<(Seq<char>, Seq<char>)>, var: MetaVar) -> Seq<char> {
    trim_ws(raw_value(vals, var))
}

/// The trimmed value of a required variable, which must be present and not blank.
pub open spec fn required_value(vals: Seq<(Seq<char>, Seq<char>)>, var: MetaVar) -> Result<Seq<char>, MetaErrorView> {
    match raw_get(vals, meta_name(var)) {
        None => Err(MetaErrorView::Missing(var)),
        Some(v) => if trim_ws(v).len() == 0 {
            Err(MetaErrorView::Empty(var))
        } else {
            Ok(trim_ws(v))
        },
    }
}

/// The whitespace separated words of a variable.
pub open spec fn raw_words(vals: Seq<(Seq<char>, Seq<char>)>, var: MetaVar) -> Seq<Seq<char>> {
    split_by(raw_value(vals, var), true)
}

/// The first word that is no keyword.
pub open spec fn first_bad_keyword(ws: Seq<Seq<char>>) -> Option<Seq<char>>
    decreases ws.len(),
{
    if ws.len() == 0 {
        None
    } else if !is_keyword_text(ws[0]) {
        Some(ws[0])
    } else {
        first_bad_keyword(ws.drop_first())
    }
}

/// An IUSE entry: a USE flag name with an optional `+` or `-` default.
pub open spec fn is_iuse_text(w: Seq<char>) -> bool {
    is_name(NameKind::UseFlag, iuse_name(w))
}

/// The first word that is no IUSE entry.
pub open spec fn first_bad_iuse(ws: Seq<Seq<char>>) -> Option<Seq<char>>
    decreases ws.len(),
{
    if ws.len() == 0 {
        None
    } else if !is_iuse_text(ws[0]) {
        Some(ws[0])
    } else {
        first_bad_iuse(ws.drop_first())
    }
}

/// The expression in `var`, parsed in context `kind`, or the message of its error.
pub open spec fn expression_of<T: ExpressionItem>(
    vals: Seq<(Seq<char>, Seq<char>)>,
    eapi: Eapi,
    kind: ExpressionKind,
    var: MetaVar,
) -> Result<Seq<ExprView>, Seq<char>> {
    dep_expression_of::<T>(eapi, kind, optional_value(vals, var))
}

/// The EAPI of the metadata: version 0 where the variable is blank or missing.
pub open spec fn metadata_eapi(vals: Seq<(Seq<char>, Seq<char>)>) -> Result<Eapi, MetaErrorView> {
    let v = optional_value(vals, MetaVar::Eapi);
    if v.len() == 0 {
        Ok(Eapi::Zero)
    } else {
        match eapi_number(v) {
            Some(n) => Ok(eapi_of(n)),
            None => Err(MetaErrorView::Invalid(MetaVar::Eapi, "unrecognized EAPI '"@ + v + "'"@)),
        }
    }
}

/// `BDEPEND` exists from EAPI 7 on.
pub open spec fn has_bdepend(eapi: Eapi) -> bool {
    eapi@ >= 7
}

/// `IDEPEND` exists from EAPI 8 on.
pub open spec fn has_idepend(eapi: Eapi) -> bool {
    eapi@ >= 8
}

/// The error of an expression variable, if any.
pub open spec fn expression_error<T: ExpressionItem>(
    vals: Seq<(Seq<char>, Seq<char>)>,
    eapi: Eapi,
    kind: ExpressionKind,
    var: MetaVar,
) -> Option<MetaErrorView> {
    match expression_of::<T>(vals, eapi, kind, var) {
        Err(m) => Some(MetaErrorView::Invalid(var, m)),
        Ok(_) => None,
    }
}

/// The first error of the variables after the EAPI, in the order they are read:
/// description, keywords, RESTRICT, IUSE, REQUIRED_USE, slot and the dependencies.
pub open spec fn metadata_error(vals: Seq<(Seq<char>, Seq<char>)>, eapi: Eapi) -> Option<MetaErrorView> {
    if required_value(vals, MetaVar::Description) is Err {
        Some(required_value(vals, MetaVar::Description)->Err_0)
    } else if first_bad_keyword(raw_words(vals, MetaVar::Keywords)) is Some {
        Some(
            MetaErrorView::Invalid(
                MetaVar::Keywords,
                subject_message("invalid keyword"@, first_bad_keyword(raw_words(vals, MetaVar::Keywords))->0),
            ),
        )
    } else if expression_error::<UseFlag>(vals, eapi, ExpressionKind::Restrict, MetaVar::Restrict) is Some {
        expression_error::<UseFlag>(vals, eapi, ExpressionKind::Restrict, MetaVar::Restrict)
    } else if first_bad_iuse(raw_words(vals, MetaVar::IUse)) is Some {
        Some(
            MetaErrorView::Invalid(
                MetaVar::IUse,
                subject_message("invalid IUSE entry"@, first_bad_iuse(raw_words(vals, MetaVar::IUse))->0),
            ),
        )
    } else if expression_error::<UseFlag>(vals, eapi, ExpressionKind::RequiredUse, MetaVar::RequiredUse) is Some {
        expression_error::<UseFlag>(vals, eapi, ExpressionKind::RequiredUse, MetaVar::RequiredUse)
    } else if required_value(vals, MetaVar::Slot) is Err {
        Some(required_value(vals, MetaVar::Slot)->Err_0)
    } else if !is_slot_text(required_value(vals, MetaVar::Slot)->Ok_0) {
        Some(MetaErrorView::Invalid(MetaVar::Slot, slot_error(required_value(vals, MetaVar::Slot)->Ok_0)))
    } else if expression_error::<Atom>(vals, eapi, ExpressionKind::Dependency, MetaVar::Depend) is Some {
        expression_error::<Atom>(vals, eapi, ExpressionKind::Dependency, MetaVar::Depend)
    } else if has_bdepend(eapi) && expression_error::<Atom>(vals, eapi, ExpressionKind::Dependency, MetaVar::BDepend) is Some {
        expression_error::<Atom>(vals, eapi, ExpressionKind::Dependency, MetaVar::BDepend)
    } else if has_idepend(eapi) && expression_error::<Atom>(vals, eapi, ExpressionKind::Dependency, MetaVar::IDepend) is Some {
        expression_error::<Atom>(vals, eapi, ExpressionKind::Dependency, MetaVar::IDepend)
    } else if expression_error::<Atom>(vals, eapi, ExpressionKind::Dependency, MetaVar::PDepend) is Some {
        expression_error::<Atom>(vals, eapi, ExpressionKind::Dependency, MetaVar::PDepend)
    } else if expression_error::<Atom>(vals, eapi, ExpressionKind::Dependency, MetaVar::RDepend) is Some {
        expression_error::<Atom>(vals, eapi, ExpressionKind::Dependency, MetaVar::RDepend)
    } else {
        None
    }
}

/// The models of a list of keywords.
pub open spec fn keyword_views(ks: Seq<Keyword>) -> Seq<KeywordView> {
    ks.map_values(|k: Keyword| k@)
}

/// The keywords that a list of words describes.
pub open spec fn keywords_of(ws: Seq<Seq<char>>) -> Seq<KeywordView> {
    ws.map_values(|w: Seq<char>| keyword_parts(w))
}

/// The models of a list of IUSE entries.
pub open spec fn iuse_views(es: Seq<IUseEntry>) -> Seq<(UseFlagPrefix, Seq<char>)> {
    es.map_values(|k: IUseEntry| k@)
}

/// The IUSE entries that a list of words describes.
pub open spec fn iuse_of(ws: Seq<Seq<char>>) -> Seq<(UseFlagPrefix, Seq<char>)> {
    ws.map_values(|w: Seq<char>| (leading_prefix(w), iuse_name(w)))
}

/// Model of package metadata.
pub struct MetadataView {
    pub eapi: Eapi,
    pub description: Seq<char>,
    pub homepage: Seq<Seq<char>>,
    pub src_uri: Seq<Seq<char>>,
    pub license: Seq<Seq<char>>,
    pub properties: Seq<Seq<char>>,
    pub keywords: Seq<KeywordView>,
    pub inherit: Seq<Seq<char>>,
    pub restrict: Seq<ExprView>,
    pub defined_phases: Seq<Seq<char>>,
    pub iuse: Seq<(UseFlagPrefix, Seq<char>)>,
    pub required_use: Seq<ExprView>,
    pub slot: SlotView,
    pub depend: Seq<ExprView>,
    pub bdepend: Seq<ExprView>,
    pub idepend: Seq<ExprView>,
    pub pdepend: Seq<ExprView>,
    pub rdepend: Seq<ExprView>,
}

/// The parsed value of an expression variable that has no error; empty otherwise.
pub open spec fn expression_value<T: ExpressionItem>(
    vals: Seq<(Seq<char>, Seq<char>)>,
    eapi: Eapi,
    kind: ExpressionKind,
    var: MetaVar,
) -> Seq<ExprView> {
    match expression_of::<T>(vals, eapi, kind, var) {
        Ok(ts) => ts,
        Err(_) => Seq::empty(),
    }
}

/// `m` is the metadata that the variables give with EAPI `eapi`.
pub open spec fn metadata_matches(m: MetadataView, vals: Seq<(Seq<char>, Seq<char>)>, eapi: Eapi) -> bool {
    &&& m.eapi == eapi
    &&& m.description == required_value(vals, MetaVar::Description)->Ok_0
    &&& m.homepage == raw_words(vals, MetaVar::Homepage)
    &&& m.src_uri == raw_words(vals, MetaVar::SrcUri)
    &&& m.license == raw_words(vals, MetaVar::License)
    &&& m.properties == raw_words(vals, MetaVar::Properties)
    &&& m.keywords == keywords_of(raw_words(vals, MetaVar::Keywords))
    &&& m.inherit == raw_words(vals, MetaVar::Inherited)
    &&& m.restrict == expression_value::<UseFlag>(vals, eapi, ExpressionKind::Restrict, MetaVar::Restrict)
    &&& m.defined_phases == raw_words(vals, MetaVar::DefinedPhases)
    &&& m.iuse == iuse_of(raw_words(vals, MetaVar::IUse))
    &&& m.required_use == expression_value::<UseFlag>(vals, eapi, ExpressionKind::RequiredUse, MetaVar::RequiredUse)
    &&& slot_text(m.slot) == required_value(vals, MetaVar::Slot)->Ok_0
    &&& is_slot_name(m.slot.0)
    &&& (m.slot.1 matches Some(sub) ==> is_slot_name(sub))
    &&& m.depend == expression_value::<Atom>(vals, eapi, ExpressionKind::Dependency, MetaVar::Depend)
    &&& m.bdepend == if has_bdepend(eapi) {
        expression_value::<Atom>(vals, eapi, ExpressionKind::Dependency, MetaVar::BDepend)
    } else {
        Seq::empty()
    }
    &&& m.idepend == if has_idepend(eapi) {
        expression_value::<Atom>(vals, eapi, ExpressionKind::Dependency, MetaVar::IDepend)
    } else {
        Seq::empty()
    }
    &&& m.pdepend == expression_value::<Atom>(vals, eapi, ExpressionKind::Dependency, MetaVar::PDepend)
    &&& m.rdepend == expression_value::<Atom>(vals, eapi, ExpressionKind::Dependency, MetaVar::RDepend)
}

/// The raw metadata variables of a package: names with their values.
#[derive(Debug)]
pub struct RawPackageMetadata {
    values: Vec<(String, String)>,
}

impl View for RawPackageMetadata {
    type V = Seq<(Seq<char>, Seq<char>)>;

    closed spec fn view(&self) -> Seq<(Seq<char>, Seq<char>)> {
        self.values@.map_values(|p: (String, String)| (p.0@, p.1@))
    }
}

impl RawPackageMetadata {
    /// Collects the variables from `values`; a later value of a name replaces an earlier.
    pub fn new(values: Vec<(String, String)>) -> (r: Self)
        ensures
            r@ == values@.map_values(|p: (String, String)| (p.0@, p.1@)),
    {
        RawPackageMetadata { values }
    }

    /// Returns the value stored for `var`.
    fn get(&self, var: MetaVar) -> (r: Option<&str>)
        ensures
            match raw_get(self@, meta_name(var)) {
                Some(v) => r matches Some(x) && x@ == v,
                None => r is None,
            },
    {
        let name = var.name();
        let ghost all = self@;
        let mut i = self.values.len();
        assert(all.subrange(0, i as int) =~= all);
        while i > 0
            invariant
                0 <= i <= self.values@.len(),
                all == self@,
                name@ == meta_name(var),
                raw_get(all, name@) == raw_get(all.subrange(0, i as int), name@),
            decreases i,
        {
            let ghost sub = all.subrange(0, i as int);
            assert(sub.drop_last() =~= all.subrange(0, i - 1));
            assert(all[i - 1] == (self.values@[i - 1].0@, self.values@[i - 1].1@));
            assert(sub.last() == all[i - 1]);
            if str_eq(self.values[i - 1].0.as_str(), name) {
                assert(raw_get(sub, name@) == Some(self.values@[i - 1].1@));
                return Some(self.values[i - 1].1.as_str());
            }
            i -= 1;
        }
        None
    }

    /// Returns the trimmed value of `var`, empty where it is missing.
    fn optional(&self, var: MetaVar) -> (r: String)
        ensures
            r@ == optional_value(self@, var),
    {
        match self.get(var) {
            Some(v) => trim(v),
            None => {
                let r = trim("");
                proof {
                    reveal_strlit("");
                }
                r
            },
        }
    }

    /// Returns the trimmed value of `var`, which must be present and not blank.
    fn required(&self, var: MetaVar) -> (r: Result<String, PackageMetadataError>)
        ensures
            match required_value(self@, var) {
                Ok(v) => r matches Ok(x) && x@ == v,
                Err(e) => r matches Err(x) && x@ == e,
            },
    {
        let value = match self.get(var) {
            Some(v) => trim(v),
            None => return Err(PackageMetadataError::Missing(var)),
        };
        if value.as_str().is_empty() {
            return Err(PackageMetadataError::Empty(var));
        }
        Ok(value)
    }

    /// Returns the whitespace separated words of `var`.
    fn words(&self, var: MetaVar) -> (r: Vec<String>)
        ensures
            texts(r@) == raw_words(self@, var),
    {
        match self.get(var) {
            Some(v) => split_text(v, true),
            None => {
                proof {
                    reveal_strlit("");
                }
                split_text("", true)
            },
        }
    }

    /// Returns the keywords of `KEYWORDS`; the first word that is no keyword is an error.
    fn keywords(&self) -> (r: Result<Vec<Keyword>, PackageMetadataError>)
        ensures
            match first_bad_keyword(raw_words(self@, MetaVar::Keywords)) {
                Some(w) => r matches Err(e) && e@ == MetaErrorView::Invalid(
                    MetaVar::Keywords,
                    subject_message("invalid keyword"@, w),
                ),
                None => r matches Ok(v) && keyword_views(v@) == keywords_of(raw_words(self@, MetaVar::Keywords)),
            },
    {
        let words = self.words(MetaVar::Keywords);
        let ghost ws = texts(words@);
        let mut out: Vec<Keyword> = Vec::new();
        let mut i: usize = 0;
        assert(ws.skip(0) =~= ws);
        while i < words.len()
            invariant
                0 <= i <= words@.len(),
                ws == texts(words@),
                ws == raw_words(self@, MetaVar::Keywords),
                keyword_views(out@) == keywords_of(ws.subrange(0, i as int)),
                out@.len() == i,
                first_bad_keyword(ws) == first_bad_keyword(ws.skip(i as int)),
            decreases words.len() - i,
        {
            assert(ws.skip(i as int)[0] == words@[i as int]@);
            assert(ws.skip(i as int).drop_first() =~= ws.skip(i + 1));
            match Keyword::from_str(words[i].as_str()) {
                Ok(k) => {
                    let ghost before = out@;
                    assert(k@ == keyword_parts(ws[i as int]));
                    out.push(k);
                    assert(keyword_views(out@) =~= keywords_of(ws.subrange(0, i + 1))) by {
                        assert forall|j: int| 0 <= j < i implies #[trigger] keyword_views(out@)[j]
                            == keywords_of(ws.subrange(0, i + 1))[j] by {
                            assert(out@[j] == before[j]);
                            assert(keyword_views(before)[j] == keywords_of(ws.subrange(0, i as int))[j]);
                        }
                    }
                },
                Err(e) => return Err(PackageMetadataError::Invalid { var: MetaVar::Keywords, source: e }),
            }
            i += 1;
        }
        assert(ws.subrange(0, i as int) =~= ws);
        Ok(out)
    }

    /// Returns the entries of `IUSE`; the first word that is no entry is an error.
    fn iuse(&self) -> (r: Result<Vec<IUseEntry>, PackageMetadataError>)
        ensures
            match first_bad_iuse(raw_words(self@, MetaVar::IUse)) {
                Some(w) => r matches Err(e) && e@ == MetaErrorView::Invalid(
                    MetaVar::IUse,
                    subject_message("invalid IUSE entry"@, w),
                ),
                None => r matches Ok(v) && iuse_views(v@) == iuse_of(raw_words(self@, MetaVar::IUse)),
            },
    {
        let words = self.words(MetaVar::IUse);
        let ghost ws = texts(words@);
        let mut out: Vec<IUseEntry> = Vec::new();
        let mut i: usize = 0;
        assert(ws.skip(0) =~= ws);
        while i < words.len()
            invariant
                0 <= i <= words@.len(),
                ws == texts(words@),
                ws == raw_words(self@, MetaVar::IUse),
                iuse_views(out@) == iuse_of(ws.subrange(0, i as int)),
                out@.len() == i,
                first_bad_iuse(ws) == first_bad_iuse(ws.skip(i as int)),
            decreases words.len() - i,
        {
            assert(ws.skip(i as int)[0] == words@[i as int]@);
            assert(ws.skip(i as int).drop_first() =~= ws.skip(i + 1));
            match IUseEntry::from_str(words[i].as_str()) {
                Ok(k) => {
                    let ghost before = out@;
                    assert(k@ == (leading_prefix(ws[i as int]), iuse_name(ws[i as int])));
                    out.push(k);
                    assert(iuse_views(out@) =~= iuse_of(ws.subrange(0, i + 1))) by {
                        assert forall|j: int| 0 <= j < i implies #[trigger] iuse_views(out@)[j]
                            == iuse_of(ws.subrange(0, i + 1))[j] by {
                            assert(out@[j] == before[j]);
                            assert(iuse_views(before)[j] == iuse_of(ws.subrange(0, i as int))[j]);
                        }
                    }
                },
                Err(e) => return Err(PackageMetadataError::Invalid { var: MetaVar::IUse, source: e }),
            }
            i += 1;
        }
        assert(ws.subrange(0, i as int) =~= ws);
        Ok(out)
    }

    /// Parses `var` as an expression of context `kind`.
    fn expression<T: ExpressionItem>(&self, eapi: Eapi, kind: ExpressionKind, var: MetaVar) -> (r: Result<
        DepExpression<T>,
        PackageMetadataError,
    >)
        ensures
            match expression_of::<T>(self@, eapi, kind, var) {
                Ok(ts) => r matches Ok(d) && d.exprs() == ts,
                Err(m) => r matches Err(e) && e@ == MetaErrorView::Invalid(var, m),
            },
    {
        let value = self.optional(var);
        match DepExpression::<T>::parse(eapi, kind, value.as_str()) {
            Ok(d) => Ok(d),
            Err(e) => Err(PackageMetadataError::Invalid { var, source: e }),
        }
    }
}

/// Validated metadata of a package.
#[derive(Debug)]
pub struct PackageMetadata {
    eapi: Eapi,
    description: String,
    homepage: Vec<String>,
    src_uri: Vec<String>,
    license: Vec<String>,
    properties: Vec<String>,
    keywords: Vec<Keyword>,
    inherit: Vec<String>,
    restrict: DepExpression<UseFlag>,
    defined_phases: Vec<String>,
    iuse: Vec<IUseEntry>,
    required_use: DepExpression<UseFlag>,
    slot: PackageSlot,
    depend: DepExpression<Atom>,
    bdepend: DepExpression<Atom>,
    idepend: DepExpression<Atom>,
    pdepend: DepExpression<Atom>,
    rdepend: DepExpression<Atom>,
    eclasses: Vec<Eclass>,
}

impl View for PackageMetadata {
    type V = MetadataView;

    closed spec fn view(&self) -> MetadataView {
        MetadataView {
            eapi: self.eapi,
            description: self.description@,
            homepage: texts(self.homepage@),
            src_uri: texts(self.src_uri@),
            license: texts(self.license@),
            properties: texts(self.properties@),
            keywords: keyword_views(self.keywords@),
            inherit: texts(self.inherit@),
            restrict: self.restrict.exprs(),
            defined_phases: texts(self.defined_phases@),
            iuse: iuse_views(self.iuse@),
            required_use: self.required_use.exprs(),
            slot: self.slot@,
            depend: self.depend.exprs(),
            bdepend: self.bdepend.exprs(),
            idepend: self.idepend.exprs(),
            pdepend: self.pdepend.exprs(),
            rdepend: self.rdepend.exprs(),
        }
    }
}

impl PackageMetadata {
    /// Builds validated metadata from the raw variables `vars`: the EAPI (0 where blank),
    /// which must equal `sourced_eapi` where one is given (PMS 7.3.1), then each variable
    /// in turn; the first that is missing, blank where required, or invalid is the error.
    /// `BDEPEND` is read from EAPI 7 on and `IDEPEND` from EAPI 8 on.
    pub fn from_raw(vars: &RawPackageMetadata, sourced_eapi: Option<Eapi>) -> (r: Result<Self, PackageMetadataError>)
        ensures
            match metadata_eapi(vars@) {
                Err(e) => r matches Err(x) && x@ == e,
                Ok(eapi) => if sourced_eapi is Some && sourced_eapi->0 != eapi {
                    r matches Err(x) && x@ == MetaErrorView::EapiMismatch(sourced_eapi->0, eapi)
                } else {
                    match metadata_error(vars@, eapi) {
                        Some(e) => r matches Err(x) && x@ == e,
                        None => r matches Ok(m) && metadata_matches(m@, vars@, eapi) && m.eclass_count() == 0,
                    }
                },
            },
    {
        let value = vars.optional(MetaVar::Eapi);
        let eapi = if value.as_str().is_empty() {
            Eapi::Zero
        } else {
            match Eapi::new(value.as_str()) {
                Ok(e) => e,
                Err(err) => {
                    let source = Error::from_string(err.to_string());
                    return Err(PackageMetadataError::Invalid { var: MetaVar::Eapi, source });
                },
            }
        };
        proof {
            assert(metadata_eapi(vars@) == Ok::<Eapi, MetaErrorView>(eapi)) by {
                if value@.len() > 0 {
                    assert(eapi_of(eapi@) == eapi);
                }
            }
        }
        match sourced_eapi {
            Some(s) => if s != eapi {
                return Err(PackageMetadataError::EapiMismatch { expected: s, found: eapi });
            },
            None => {},
        }
        let description = match vars.required(MetaVar::Description) {
            Ok(v) => v,
            Err(e) => return Err(e),
        };
        let homepage = vars.words(MetaVar::Homepage);
        let src_uri = vars.words(MetaVar::SrcUri);
        let license = vars.words(MetaVar::License);
        let properties = vars.words(MetaVar::Properties);
        let keywords = match vars.keywords() {
            Ok(v) => v,
            Err(e) => return Err(e),
        };
        let inherit = vars.words(MetaVar::Inherited);
        let restrict = match vars.expression::<UseFlag>(eapi, ExpressionKind::Restrict, MetaVar::Restrict) {
            Ok(v) => v,
            Err(e) => return Err(e),
        };
        let defined_phases = vars.words(MetaVar::DefinedPhases);
        let iuse = match vars.iuse() {
            Ok(v) => v,
            Err(e) => return Err(e),
        };
        let required_use = match vars.expression::<UseFlag>(eapi, ExpressionKind::RequiredUse, MetaVar::RequiredUse) {
            Ok(v) => v,
            Err(e) => return Err(e),
        };
        let slot_value = match vars.required(MetaVar::Slot) {
            Ok(v) => v,
            Err(e) => return Err(e),
        };
        let slot = match PackageSlot::new(slot_value.as_str()) {
            Ok(s) => s,
            Err(e) => return Err(PackageMetadataError::Invalid { var: MetaVar::Slot, source: e }),
        };
        let depend = match vars.expression::<Atom>(eapi, ExpressionKind::Dependency, MetaVar::Depend) {
            Ok(v) => v,
            Err(e) => return Err(e),
        };
        let bdepend = if eapi.supports_bdepend() {
            match vars.expression::<Atom>(eapi, ExpressionKind::Dependency, MetaVar::BDepend) {
                Ok(v) => v,
                Err(e) => return Err(e),
            }
        } else {
            DepExpression::default()
        };
        let idepend = if eapi.supports_idepend() {
            match vars.expression::<Atom>(eapi, ExpressionKind::Dependency, MetaVar::IDepend) {
                Ok(v) => v,
                Err(e) => return Err(e),
            }
        } else {
            DepExpression::default()
        };
        let pdepend = match vars.expression::<Atom>(eapi, ExpressionKind::Dependency, MetaVar::PDepend) {
            Ok(v) => v,
            Err(e) => return Err(e),
        };
        let rdepend = match vars.expression::<Atom>(eapi, ExpressionKind::Dependency, MetaVar::RDepend) {
            Ok(v) => v,
            Err(e) => return Err(e),
        };
        Ok(PackageMetadata {
            eapi,
            description,
            homepage,
            src_uri,
            license,
            properties,
            keywords,
            inherit,
            restrict,
            defined_phases,
            iuse,
            required_use,
            slot,
            depend,
            bdepend,
            idepend,
            pdepend,
            rdepend,
            eclasses: Vec::new(),
        })
    }
}

/// The texts of a list of keywords.
pub open spec fn keyword_texts(ks: Seq<KeywordView>) -> Seq<Seq<char>> {
    ks.map_values(|k: KeywordView| keyword_text(k))
}

/// The texts of a list of IUSE entries.
pub open spec fn iuse_texts(es: Seq<(UseFlagPrefix, Seq<char>)>) -> Seq<Seq<char>> {
    es.map_values(|e: (UseFlagPrefix, Seq<char>)| prefix_text(e.0) + e.1)
}

/// The line `key` + `value` and a line feed.
pub open spec fn meta_line(key: Seq<char>, value: Seq<char>) -> Seq<char> {
    key + value + seq!['\n']
}

/// The metadata in cache form: one `KEY=value` line per variable, sorted by key, lists
/// and expressions written with single spaces.
pub open spec fn metadata_text(m: MetadataView) -> Seq<char> {
    meta_line("BDEPEND="@, render_all(m.bdepend)) + meta_line("DEFINED_PHASES="@, join_words(m.defined_phases))
        + meta_line("DEPEND="@, render_all(m.depend)) + meta_line("DESCRIPTION="@, m.description)
        + meta_line("EAPI="@, eapi_text(m.eapi)) + meta_line("HOMEPAGE="@, join_words(m.homepage))
        + meta_line("IDEPEND="@, render_all(m.idepend)) + meta_line("INHERITED="@, join_words(m.inherit))
        + meta_line("IUSE="@, join_words(iuse_texts(m.iuse))) + meta_line("KEYWORDS="@, join_words(keyword_texts(m.keywords)))
        + meta_line("LICENSE="@, join_words(m.license)) + meta_line("PDEPEND="@, render_all(m.pdepend))
        + meta_line("PROPERTIES="@, join_words(m.properties)) + meta_line("RDEPEND="@, render_all(m.rdepend))
        + meta_line("RESTRICT="@, render_all(m.restrict)) + meta_line("REQUIRED_USE="@, render_all(m.required_use))
        + meta_line("SLOT="@, slot_text(m.slot)) + meta_line("SRC_URI="@, join_words(m.src_uri))
        + meta_line("_eclasses_="@, "TODO"@) + meta_line("_md5_="@, "TODO"@)
}

/// Appends the line `key` + `value` and a line feed.
fn push_line(out: &mut String, key: &str, value: &str)
    ensures
        final(out)@ == old(out)@ + meta_line(key@, value@),
{
    append_str(out, key);
    append_str(out, value);
    push_char(out, '\n');
    assert(final(out)@ =~= old(out)@ + meta_line(key@, value@));
}

impl PackageMetadata {
    /// Returns the EAPI.
    pub fn eapi(&self) -> (r: Eapi)
        ensures
            r == self@.eapi,
    {
        self.eapi
    }

    /// Returns the description.
    pub fn description(&self) -> (r: &str)
        ensures
            r@ == self@.description,
    {
        self.description.as_str()
    }

    /// Returns the homepages.
    pub fn homepage(&self) -> (r: &Vec<String>)
        ensures
            texts(r@) == self@.homepage,
    {
        &self.homepage
    }

    /// Returns the source URIs.
    pub fn src_uri(&self) -> (r: &Vec<String>)
        ensures
            texts(r@) == self@.src_uri,
    {
        &self.src_uri
    }

    /// Returns the licenses.
    pub fn license(&self) -> (r: &Vec<String>)
        ensures
            texts(r@) == self@.license,
    {
        &self.license
    }

    /// Returns the properties.
    pub fn properties(&self) -> (r: &Vec<String>)
        ensures
            texts(r@) == self@.properties,
    {
        &self.properties
    }

    /// Returns the keywords.
    pub fn keywords(&self) -> (r: &Vec<Keyword>)
        ensures
            keyword_views(r@) == self@.keywords,
    {
        &self.keywords
    }

    /// Returns the inherited eclasses.
    pub fn inherit(&self) -> (r: &Vec<String>)
        ensures
            texts(r@) == self@.inherit,
    {
        &self.inherit
    }

    /// Returns `RESTRICT`.
    pub fn restrict(&self) -> (r: &DepExpression<UseFlag>)
        ensures
            r.exprs() == self@.restrict,
    {
        &self.restrict
    }

    /// Returns the defined phases.
    pub fn defined_phases(&self) -> (r: &Vec<String>)
        ensures
            texts(r@) == self@.defined_phases,
    {
        &self.defined_phases
    }

    /// Returns the IUSE entries.
    pub fn iuse(&self) -> (r: &Vec<IUseEntry>)
        ensures
            iuse_views(r@) == self@.iuse,
    {
        &self.iuse
    }

    /// Returns `REQUIRED_USE`.
    pub fn required_use(&self) -> (r: &DepExpression<UseFlag>)
        ensures
            r.exprs() == self@.required_use,
    {
        &self.required_use
    }

    /// Returns the slot.
    pub fn slot(&self) -> (r: &PackageSlot)
        ensures
            r@ == self@.slot,
    {
        &self.slot
    }

    /// Returns the build dependencies.
    pub fn depend(&self) -> (r: &DepExpression<Atom>)
        ensures
            r.exprs() == self@.depend,
    {
        &self.depend
    }

    /// Returns the build host dependencies.
    pub fn bdepend(&self) -> (r: &DepExpression<Atom>)
        ensures
            r.exprs() == self@.bdepend,
    {
        &self.bdepend
    }

    /// Returns the install time dependencies.
    pub fn idepend(&self) -> (r: &DepExpression<Atom>)
        ensures
            r.exprs() == self@.idepend,
    {
        &self.idepend
    }

    /// Returns the post dependencies.
    pub fn pdepend(&self) -> (r: &DepExpression<Atom>)
        ensures
            r.exprs() == self@.pdepend,
    {
        &self.pdepend
    }

    /// Returns the runtime dependencies.
    pub fn rdepend(&self) -> (r: &DepExpression<Atom>)
        ensures
            r.exprs() == self@.rdepend,
    {
        &self.rdepend
    }

    /// Returns the eclasses; none are read from the variables.
    pub fn eclasses(&self) -> (r: &Vec<Eclass>)
        ensures
            r@.len() == self.eclass_count(),
    {
        &self.eclasses
    }

    /// The number of eclasses held.
    pub closed spec fn eclass_count(&self) -> nat {
        self.eclasses@.len()
    }

    /// Returns the metadata in cache form: one `KEY=value` line per variable, sorted by
    /// key.
    pub fn to_string(&self) -> (r: String)
        ensures
            r@ == metadata_text(self@),
    {
        let mut keywords: Vec<String> = Vec::new();
        let mut i: usize = 0;
        while i < self.keywords.len()
            invariant
                0 <= i <= self.keywords@.len(),
                texts(keywords@) == keyword_texts(keyword_views(self.keywords@)).subrange(0, i as int),
                keywords@.len() == i,
            decreases self.keywords.len() - i,
        {
            let ghost before = keywords@;
            let ghost all = keyword_texts(keyword_views(self.keywords@));
            keywords.push(self.keywords[i].to_string());
            assert(all[i as int] == keyword_text(self.keywords@[i as int]@));
            assert(texts(keywords@) =~= all.subrange(0, i + 1)) by {
                assert(texts(before) =~= all.subrange(0, i as int));
                assert forall|k: int| 0 <= k < i implies texts(keywords@)[k] == all[k] by {
                    assert(texts(before)[k] == all.subrange(0, i as int)[k]);
                    assert(keywords@[k] == before[k]);
                }
            }
            i += 1;
        }
        assert(keyword_texts(keyword_views(self.keywords@)).subrange(0, i as int) =~= keyword_texts(keyword_views(self.keywords@)));
        let mut iuse: Vec<String> = Vec::new();
        let mut j: usize = 0;
        while j < self.iuse.len()
            invariant
                0 <= j <= self.iuse@.len(),
                texts(iuse@) == iuse_texts(iuse_views(self.iuse@)).subrange(0, j as int),
                iuse@.len() == j,
            decreases self.iuse.len() - j,
        {
            let ghost before = iuse@;
            let ghost all = iuse_texts(iuse_views(self.iuse@));
            iuse.push(self.iuse[j].to_string());
            assert(all[j as int] == prefix_text(self.iuse@[j as int]@.0) + self.iuse@[j as int]@.1);
            assert(texts(iuse@) =~= all.subrange(0, j + 1)) by {
                assert(texts(before) =~= all.subrange(0, j as int));
                assert forall|k: int| 0 <= k < j implies texts(iuse@)[k] == all[k] by {
                    assert(texts(before)[k] == all.subrange(0, j as int)[k]);
                    assert(iuse@[k] == before[k]);
                }
            }
            j += 1;
        }
        assert(iuse_texts(iuse_views(self.iuse@)).subrange(0, j as int) =~= iuse_texts(iuse_views(self.iuse@)));
        let mut s = String::new();
        push_line(&mut s, "BDEPEND=", self.bdepend.to_string().as_str());
        push_line(&mut s, "DEFINED_PHASES=", join_strings(self.defined_phases.as_slice()).as_str());
        push_line(&mut s, "DEPEND=", self.depend.to_string().as_str());
        push_line(&mut s, "DESCRIPTION=", self.description.as_str());
        push_line(&mut s, "EAPI=", self.eapi.as_str());
        push_line(&mut s, "HOMEPAGE=", join_strings(self.homepage.as_slice()).as_str());
        push_line(&mut s, "IDEPEND=", self.idepend.to_string().as_str());
        push_line(&mut s, "INHERITED=", join_strings(self.inherit.as_slice()).as_str());
        push_line(&mut s, "IUSE=", join_strings(iuse.as_slice()).as_str());
        push_line(&mut s, "KEYWORDS=", join_strings(keywords.as_slice()).as_str());
        push_line(&mut s, "LICENSE=", join_strings(self.license.as_slice()).as_str());
        push_line(&mut s, "PDEPEND=", self.pdepend.to_string().as_str());
        push_line(&mut s, "PROPERTIES=", join_strings(self.properties.as_slice()).as_str());
        push_line(&mut s, "RDEPEND=", self.rdepend.to_string().as_str());
        push_line(&mut s, "RESTRICT=", self.restrict.to_string().as_str());
        push_line(&mut s, "REQUIRED_USE=", self.required_use.to_string().as_str());
        push_line(&mut s, "SLOT=", self.slot.to_string().as_str());
        push_line(&mut s, "SRC_URI=", join_strings(self.src_uri.as_slice()).as_str());
        push_line(&mut s, "_eclasses_=", "TODO");
        push_line(&mut s, "_md5_=", "TODO");
        assert(s@ =~= metadata_text(self@));
        s
    }
}

} // verus!
