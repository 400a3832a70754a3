use vstd::prelude::*;
use crate::data::DataMap;
use crate::data::pair_map;
use crate::slot::Slot;
use crate::text;

verus! {

// ---------------------------------------------------------------------------
// The template engine, taken on trust
// ---------------------------------------------------------------------------

#[verifier::external_type_specification]
#[verifier::external_body]
pub struct ExContext(tera::Context);

/// The values a rendering context holds, keyed by variable name.
pub uninterp spec fn context_data(c: tera::Context) -> Map<Seq<char>, Seq<char>>;

/// What the template engine yields for a template text rendered against a
/// context: the rendered text, or nothing when rendering fails (a syntax
/// error, or a variable the context does not hold). The engine is used with
/// its optional built-in functions disabled, and only for text that cannot
/// call its environment reader, so the outcome is determined by the template
/// text and the context values alone.
pub uninterp spec fn render_of(text: Seq<char>, ctx: Map<Seq<char>, Seq<char>>) -> Option<
    Seq<char>,
>;

/// Whether the needle occurs in the text.
pub open spec fn contains_sub(h: Seq<char>, n: Seq<char>) -> bool {
    exists|i: int| 0 <= i && i + n.len() <= h.len() && #[trigger] h.subrange(i, i + n.len()) == n
}

/// Template text that never reaches the engine's environment reader, the one
/// ambient input the engine exposes: a call would have to spell its name.
/// Rendering such text is a function of the text and the context alone.
pub open spec fn env_free(s: Seq<char>) -> bool {
    !contains_sub(s, "get_env"@)
}

/// The empty rendering context.
pub open spec fn empty_ctx() -> Map<Seq<char>, Seq<char>> {
    Map::empty()
}

/// Relies on tera::Context::new: a fresh context holds no values.
#[verifier::external_body]
fn context_new() -> (ctx: tera::Context)
    ensures
        context_data(ctx) == empty_ctx(),
{
    tera::Context::new()
}

/// Relies on tera::Context::insert: sets the value under the name, replacing
/// an earlier value of the same name.
#[verifier::external_body]
fn context_insert(c: &mut tera::Context, key: &String, value: &String)
    ensures
        context_data(*final(c)) == context_data(*old(c)).insert(key@, value@),
{
    c.insert(key, value);
}

/// Relies on tera::Tera::one_off with autoescape off and the crate's optional
/// built-in functions compiled out: renders the template text against the
/// context, failing exactly when the engine reports an error (the error's
/// message is not specified). The engine's remaining registered functions are
/// functions of their arguments, except the environment reader, which the
/// precondition keeps out of reach, so what comes back is determined by the
/// text and the context.
#[verifier::external_body]
fn one_off_render(text: &str, c: &tera::Context) -> (r: Result<String, String>)
    requires
        env_free(text@),
    ensures
        r matches Ok(s) ==> render_of(text@, context_data(*c)) == Some(s@),
        r is Err ==> render_of(text@, context_data(*c)) is None,
{
    match tera::Tera::one_off(text, c, false) {
        Ok(s) => Ok(s),
        Err(e) => Err(e.to_string()),
    }
}

/// Builds a rendering context holding exactly the data map's values.
pub fn build_context(data: &DataMap) -> (c: tera::Context)
    requires
        data.wf(),
    ensures
        context_data(c) == data@,
{
    let mut c = context_new();
    let n = data.len();
    let mut i: usize = 0;
    proof {
        assert(pair_map(data.spec_entries().take(0)) =~= Map::<Seq<char>, Seq<char>>::empty());
    }
    while i < n
        invariant
            data.wf(),
            n == data.spec_entries().len(),
            i <= n,
            context_data(c) == pair_map(data.spec_entries().take(i as int)),
        decreases n - i,
    {
        let key = data.key_at(i);
        let val = data.val_at(i);
        context_insert(&mut c, key, val);
        proof {
            let es = data.spec_entries();
            assert(es.take(i as int + 1).drop_last() =~= es.take(i as int));
            assert(es.take(i as int + 1).last() == es[i as int]);
        }
        i = i + 1;
    }
    proof {
        assert(data.spec_entries().take(n as int) =~= data.spec_entries());
        data.lemma_view_is_pair_map();
    }
    c
}

/// Renders one template text against the data map.
pub fn render_text(text: &str, data: &DataMap) -> (r: Result<String, String>)
    requires
        data.wf(),
        env_free(text@),
    ensures
        r matches Ok(s) ==> render_of(text@, data@) == Some(s@),
        r is Err ==> render_of(text@, data@) is None,
{
    let c = build_context(data);
    one_off_render(text, &c)
}

// ---------------------------------------------------------------------------
// Filling template files
// ---------------------------------------------------------------------------

/// One template file of the project tree, read into memory: its path
/// relative to the project directory, and its text.
#[derive(Debug)]
pub struct TemplateFile {
    pub name: String,
    pub contents: String,
}

/// A filled template: the output path (the rendered name with the template
/// extension stripped) and the rendered text.
#[derive(Debug)]
pub struct RenderedFile {
    pub path: String,
    pub contents: String,
}

/// Why one file could not be filled.
#[derive(Debug)]
pub enum FileErrorKind {
    ErrorRenderingContents(String),
    ErrorRenderingName(String),
    ErrorCreatingDest(String),
    ErrorWritingToDest(String),
}

/// A per-file failure, naming the file it struck.
#[derive(Debug)]
pub struct FileError {
    pub kind: FileErrorKind,
    pub file: String,
}

/// The name with the template extension stripped, when it carries one.
pub open spec fn spec_strip_ext(name: Seq<char>) -> Seq<char> {
    if text::spec_ends_with(name, ".j2"@) {
        name.take(name.len() - ".j2"@.len())
    } else {
        name
    }
}

fn strip_ext(name: &str) -> (r: &str)
    ensures
        r@ == spec_strip_ext(name@),
{
    proof {
        reveal_strlit(".j2");
    }
    let n = name.unicode_len();
    if text::ends_with_str(name, ".j2") {
        name.substring_char(0, n - 3)
    } else {
        name.substring_char(0, n)
    }
}

/// How filling one template file comes out: the contents fail to render, the
/// name fails to render, or both render.
pub enum FillOutcome {
    BadContents,
    BadName,
    Rendered { path: Seq<char>, contents: Seq<char> },
}

/// Filling one file: render the contents, then, for a name carrying the
/// template extension, render the name too; the output path is the name with
/// the extension stripped.
pub open spec fn spec_fill_file(
    name: Seq<char>,
    body: Seq<char>,
    ctx: Map<Seq<char>, Seq<char>>,
) -> FillOutcome {
    match render_of(body, ctx) {
        None => FillOutcome::BadContents,
        Some(out) => if text::spec_ends_with(name, ".j2"@) {
            match render_of(name, ctx) {
                None => FillOutcome::BadName,
                Some(nm) => FillOutcome::Rendered { path: spec_strip_ext(nm), contents: out },
            }
        } else {
            FillOutcome::Rendered { path: spec_strip_ext(name), contents: out }
        },
    }
}

/// Whether a fill result reports exactly the outcome, against the file named.
pub open spec fn fill_result_matches(
    o: FillOutcome,
    name: Seq<char>,
    r: Result<RenderedFile, FileError>,
) -> bool {
    match o {
        FillOutcome::BadContents => r matches Err(e) && e.file@ == name
            && e.kind matches FileErrorKind::ErrorRenderingContents(_),
        FillOutcome::BadName => r matches Err(e) && e.file@ == name
            && e.kind matches FileErrorKind::ErrorRenderingName(_),
        FillOutcome::Rendered { path, contents } => r matches Ok(f) && f.path@ == path
            && f.contents@ == contents,
    }
}

/// Template files whose name and contents keep clear of the environment
/// reader.
pub open spec fn template_env_free(t: TemplateFile) -> bool {
    env_free(t.name@) && env_free(t.contents@)
}

fn fill_one(t: &TemplateFile, data: &DataMap) -> (r: Result<RenderedFile, FileError>)
    requires
        data.wf(),
        template_env_free(*t),
    ensures
        fill_result_matches(spec_fill_file(t.name@, t.contents@, data@), t.name@, r),
{
    let out = match render_text(t.contents.as_str(), data) {
        Ok(o) => o,
        Err(e) => {
            return Err(
                FileError { kind: FileErrorKind::ErrorRenderingContents(e), file: t.name.clone() },
            );
        },
    };
    let name: String = if text::ends_with_str(t.name.as_str(), ".j2") {
        match render_text(t.name.as_str(), data) {
            Ok(nm) => nm,
            Err(e) => {
                return Err(
                    FileError { kind: FileErrorKind::ErrorRenderingName(e), file: t.name.clone() },
                );
            },
        }
    } else {
        t.name.clone()
    };
    let path = strip_ext(name.as_str()).to_owned();
    Ok(RenderedFile { path, contents: out })
}

/// Renders every template file against the data, in order, reporting each
/// file's outcome on its own.
pub fn fill(templates: &Vec<TemplateFile>, data: &DataMap) -> (r: Vec<
    Result<RenderedFile, FileError>,
>)
    requires
        data.wf(),
        forall|i: int| 0 <= i < templates@.len() ==> template_env_free(#[trigger] templates@[i]),
    ensures
        r@.len() == templates@.len(),
        forall|i: int|
            0 <= i < templates@.len() ==> fill_result_matches(
                spec_fill_file(templates@[i].name@, templates@[i].contents@, data@),
                templates@[i].name@,
                #[trigger] r@[i],
            ),
{
    let n = templates.len();
    let mut out: Vec<Result<RenderedFile, FileError>> = Vec::new();
    let mut i: usize = 0;
    while i < n
        invariant
            data.wf(),
            forall|j: int| 0 <= j < templates@.len() ==> template_env_free(#[trigger] templates@[j]),
            n == templates@.len(),
            i <= n,
            out@.len() == i,
            forall|j: int|
                0 <= j < i ==> fill_result_matches(
                    spec_fill_file(templates@[j].name@, templates@[j].contents@, data@),
                    templates@[j].name@,
                    #[trigger] out@[j],
                ),
        decreases n - i,
    {
        out.push(fill_one(&templates[i], data));
        i = i + 1;
    }
    out
}

// ---------------------------------------------------------------------------
// Validating template files against the slots
// ---------------------------------------------------------------------------

/// The context template validation renders against: every declared slot key
/// bound to the empty string, and the reserved names likewise.
pub open spec fn slots_blank(slots: Seq<Slot>) -> Map<Seq<char>, Seq<char>>
    decreases slots.len(),
{
    if slots.len() == 0 {
        Map::empty()
    } else {
        slots_blank(slots.drop_last()).insert(slots.last().key@, ""@)
    }
}

pub open spec fn spec_validate_ctx(slots: Seq<Slot>) -> Map<Seq<char>, Seq<char>> {
    slots_blank(slots).insert("_project_name"@, ""@).insert("_output_name"@, ""@)
}

/// Why template validation failed as a whole.
#[derive(Debug)]
pub enum ValidateError {
    TeraError(String),
    RenderError(Vec<(String, String)>),
}

/// Validates the template files against the slots: every file must render
/// against a context that binds each declared slot key (and the reserved
/// names) to the empty string. Reports the failing files in order.
pub fn validate(templates: &Vec<TemplateFile>, slots: &Vec<Slot>) -> (r: Result<
    (),
    ValidateError,
>)
    requires
        forall|i: int| 0 <= i < templates@.len() ==> env_free((#[trigger] templates@[i]).contents@),
    ensures
        r is Ok <==> (forall|i: int|
            0 <= i < templates@.len() ==> render_of(
                (#[trigger] templates@[i]).contents@,
                spec_validate_ctx(slots@),
            ) is Some),
        r matches Err(e) ==> e matches ValidateError::RenderError(es) && es@.map_values(
            |p: (String, String)| p.0@,
        ) == templates@.filter(
            |t: TemplateFile| render_of(t.contents@, spec_validate_ctx(slots@)) is None,
        ).map_values(|t: TemplateFile| t.name@),
{
    let mut dm = DataMap::new();
    let m = slots.len();
    let mut k: usize = 0;
    proof {
        assert(slots_blank(slots@.take(0)) =~= Map::<Seq<char>, Seq<char>>::empty());
        reveal_strlit("");
        assert(""@ =~= Seq::<char>::empty());
    }
    while k < m
        invariant
            m == slots@.len(),
            k <= m,
            dm.wf(),
            dm@ == slots_blank(slots@.take(k as int)),
        decreases m - k,
    {
        dm.insert(slots[k].key.clone(), String::new());
        proof {
            reveal_strlit("");
            assert(""@ =~= Seq::<char>::empty());
            assert(slots@.take(k as int + 1).drop_last() =~= slots@.take(k as int));
            assert(slots@.take(k as int + 1).last() == slots@[k as int]);
        }
        k = k + 1;
    }
    proof {
        assert(slots@.take(m as int) =~= slots@);
    }
    dm.insert("_project_name".to_owned(), String::new());
    dm.insert("_output_name".to_owned(), String::new());
    let ctx = build_context(&dm);

    let ghost bad = |t: TemplateFile| render_of(t.contents@, spec_validate_ctx(slots@)) is None;
    let n = templates.len();
    let mut errs: Vec<(String, String)> = Vec::new();
    let mut i: usize = 0;
    proof {
        reveal(Seq::filter);
        assert(templates@.take(0).filter(bad) =~= Seq::<TemplateFile>::empty());
    }
    while i < n
        invariant
            n == templates@.len(),
            forall|j: int| 0 <= j < templates@.len() ==> env_free((#[trigger] templates@[j]).contents@),
            context_data(ctx) == spec_validate_ctx(slots@),
            bad == (|t: TemplateFile| render_of(t.contents@, spec_validate_ctx(slots@)) is None),
            i <= n,
            errs@.map_values(|p: (String, String)| p.0@) =~= templates@.take(i as int).filter(
                bad,
            ).map_values(|t: TemplateFile| t.name@),
        decreases n - i,
    {
        let ghost pre = templates@.take(i as int);
        match one_off_render(templates[i].contents.as_str(), &ctx) {
            Ok(_) => {
                proof {
                    reveal(Seq::filter);
                    assert(templates@.take(i as int + 1).drop_last() =~= pre);
                    assert(!bad(templates@[i as int]));
                    assert(templates@.take(i as int + 1).filter(bad) == pre.filter(bad));
                }
            },
            Err(e) => {
                errs.push((templates[i].name.clone(), e));
                proof {
                    reveal(Seq::filter);
                    assert(templates@.take(i as int + 1).drop_last() =~= pre);
                    assert(bad(templates@[i as int]));
                    assert(templates@.take(i as int + 1).filter(bad) == pre.filter(bad).push(
                        templates@[i as int],
                    ));
                    assert(errs@.map_values(|p: (String, String)| p.0@) =~= errs@.drop_last()
                        .map_values(|p: (String, String)| p.0@).push(errs@.last().0@));
                    assert(templates@.take(i as int + 1).filter(bad).map_values(
                        |t: TemplateFile| t.name@,
                    ) =~= pre.filter(bad).map_values(|t: TemplateFile| t.name@).push(
                        templates@[i as int].name@,
                    ));
                }
            },
        }
        i = i + 1;
    }
    proof {
        assert(templates@.take(n as int) =~= templates@);
    }
    if errs.len() == 0 {
        proof {
            let all_bad = templates@.filter(bad).map_values(|t: TemplateFile| t.name@);
            assert(errs@.map_values(|p: (String, String)| p.0@).len() == 0);
            assert forall|i2: int| 0 <= i2 < templates@.len() implies render_of(
                (#[trigger] templates@[i2]).contents@,
                spec_validate_ctx(slots@),
            ) is Some by {
                if bad(templates@[i2]) {
                    templates@.lemma_filter_contains(bad, i2);
                    assert(templates@.filter(bad).len() > 0);
                    assert(all_bad.len() > 0);
                }
            }
        }
        Ok(())
    } else {
        proof {
            if forall|i2: int|
                0 <= i2 < templates@.len() ==> render_of(
                    (#[trigger] templates@[i2]).contents@,
                    spec_validate_ctx(slots@),
                ) is Some {
                reveal(Seq::filter);
                lemma_filter_none(templates@, bad);
            }
        }
        Err(ValidateError::RenderError(errs))
    }
}

proof fn lemma_filter_none<A>(s: Seq<A>, pred: spec_fn(A) -> bool)
    requires
        forall|i: int| 0 <= i < s.len() ==> !pred(#[trigger] s[i]),
    ensures
        s.filter(pred).len() == 0,
    decreases s.len(),
{
    reveal(Seq::filter);
    if s.len() > 0 {
        lemma_filter_none(s.drop_last(), pred);
    }
}

} // verus!
