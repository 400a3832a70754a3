use vstd::prelude::*;
use vstd::string::StrSliceExecFns;
use vstd::string::StringExecFns;
use crate::data::DataMap;
use crate::template;
use crate::text;

verus! {

/// One entry of the source tree, by its path relative to the project
/// directory.
#[derive(Debug)]
pub struct SourceEntry {
    pub rel_path: String,
    pub is_dir: bool,
}

/// One planned transfer: the source path relative to the project directory,
/// the rendered destination path, and whether it is a directory to create
/// rather than a file to copy.
#[derive(Debug)]
pub struct CopyAction {
    pub src: String,
    pub dest: String,
    pub is_dir: bool,
}

/// What the copy stage counted: files planned for copying, and entries set
/// aside by the ignore list.
#[derive(Debug)]
pub struct CopyResult {
    pub copied_count: usize,
    pub skipped_count: usize,
}

/// A failure while planning the copy, naming the path it struck.
#[derive(Debug)]
pub struct Error {
    pub path: String,
    pub message: String,
}

/// Whether one path component keeps its entry out of the copy: it matches the
/// ignore list, it is the manifest file, or it carries the template
/// extension.
pub open spec fn component_blocked(c: Seq<char>, skip: Seq<Seq<char>>) -> bool {
    skip.contains(c) || c == "spackle.toml"@ || text::spec_ends_with(c, ".j2"@)
}

/// Whether any component of the path text up to `end` is blocked, walking the
/// components from the last backward.
pub open spec fn spec_excluded_upto(s: Seq<char>, end: int, skip: Seq<Seq<char>>) -> bool
    recommends
        0 <= end <= s.len(),
    decreases end,
    when end >= 0
    via spec_excluded_upto_dec
{
    let start = text::seg_start(s, end);
    component_blocked(s.subrange(start, end), skip) || (start > 0 && spec_excluded_upto(
        s,
        start - 1,
        skip,
    ))
}

#[via_fn]
proof fn spec_excluded_upto_dec(s: Seq<char>, end: int, skip: Seq<Seq<char>>) {
    text::lemma_seg_start_bounds(s, end);
}

/// Whether the entry is left out of the copy: some component of its path is
/// blocked.
pub open spec fn spec_excluded(s: Seq<char>, skip: Seq<Seq<char>>) -> bool {
    spec_excluded_upto(s, s.len() as int, skip)
}

/// The last component of a path text.
pub open spec fn last_component(s: Seq<char>) -> Seq<char> {
    s.subrange(text::seg_start(s, s.len() as int), s.len() as int)
}

/// The copy plan: the planned actions and the two counts.
pub struct CopyModel {
    pub actions: Seq<(Seq<char>, Seq<char>, bool)>,
    pub copied: int,
    pub skipped: int,
}

/// Planning the copy of the entries in order: an excluded entry only counts
/// toward `skipped` where its own name matches the ignore list; any other
/// entry has its destination path rendered (the destination directory, a
/// `/`, and the relative path), failing the plan at the first path that does
/// not render.
pub open spec fn spec_copy_model(
    entries: Seq<SourceEntry>,
    dest: Seq<char>,
    skip: Seq<Seq<char>>,
    ctx: Map<Seq<char>, Seq<char>>,
) -> Result<CopyModel, Seq<char>>
    decreases entries.len(),
{
    if entries.len() == 0 {
        Ok(CopyModel { actions: Seq::empty(), copied: 0, skipped: 0 })
    } else {
        match spec_copy_model(entries.drop_last(), dest, skip, ctx) {
            Err(p) => Err(p),
            Ok(m) => {
                let e = entries.last();
                if spec_excluded(e.rel_path@, skip) {
                    Ok(
                        CopyModel {
                            skipped: m.skipped + if skip.contains(last_component(e.rel_path@)) {
                                1int
                            } else {
                                0int
                            },
                            ..m
                        },
                    )
                } else {
                    let joined = dest + "/"@ + e.rel_path@;
                    match template::render_of(joined, ctx) {
                        None => Err(joined),
                        Some(d) => Ok(
                            CopyModel {
                                actions: m.actions.push((e.rel_path@, d, e.is_dir)),
                                copied: m.copied + if e.is_dir {
                                    0int
                                } else {
                                    1int
                                },
                                ..m
                            },
                        ),
                    }
                }
            },
        }
    }
}

proof fn lemma_copy_err_stable(
    entries: Seq<SourceEntry>,
    dest: Seq<char>,
    skip: Seq<Seq<char>>,
    ctx: Map<Seq<char>, Seq<char>>,
    k: int,
    n2: int,
)
    requires
        0 <= k <= n2 <= entries.len(),
        spec_copy_model(entries.take(k), dest, skip, ctx) is Err,
    ensures
        spec_copy_model(entries.take(n2), dest, skip, ctx) == spec_copy_model(
            entries.take(k),
            dest,
            skip,
            ctx,
        ),
    decreases n2 - k,
{
    if n2 > k {
        lemma_copy_err_stable(entries, dest, skip, ctx, k, n2 - 1);
        assert(entries.take(n2).drop_last() =~= entries.take(n2 - 1));
    }
}

fn in_skip(c: &str, skip: &Vec<String>) -> (r: bool)
    ensures
        r == text::views_of(skip@).contains(c@),
{
    let n = skip.len();
    let mut i: usize = 0;
    while i < n
        invariant
            n == skip@.len(),
            i <= n,
            forall|j: int| 0 <= j < i ==> text::views_of(skip@)[j] != c@,
        decreases n - i,
    {
        if text::str_eq(skip[i].as_str(), c) {
            proof {
                assert(text::views_of(skip@)[i as int] == c@);
                assert(text::views_of(skip@).contains(c@));
            }
            return true;
        }
        i = i + 1;
    }
    proof {
        if text::views_of(skip@).contains(c@) {
            let j = choose|j: int|
                0 <= j < text::views_of(skip@).len() && text::views_of(skip@)[j] == c@;
            assert(false);
        }
    }
    false
}

fn component_blocked_exec(c: &str, skip: &Vec<String>) -> (r: bool)
    ensures
        r == component_blocked(c@, text::views_of(skip@)),
{
    in_skip(c, skip) || text::str_eq(c, "spackle.toml") || text::ends_with_str(c, ".j2")
}

fn excluded_upto(s: &str, end: usize, skip: &Vec<String>) -> (r: bool)
    requires
        end <= s@.len(),
    ensures
        r == spec_excluded_upto(s@, end as int, text::views_of(skip@)),
    decreases end,
{
    let start = find_seg_start_fwd(s, end);
    let comp = s.substring_char(start, end);
    if component_blocked_exec(comp, skip) {
        true
    } else if start > 0 {
        excluded_upto(s, start - 1, skip)
    } else {
        false
    }
}

fn find_seg_start_fwd(s: &str, end: usize) -> (r: usize)
    requires
        end <= s@.len(),
    ensures
        r == text::seg_start(s@, end as int),
        r <= end,
    decreases end,
{
    if end == 0 {
        0
    } else if s.get_char(end - 1) == '/' {
        end
    } else {
        find_seg_start_fwd(s, end - 1)
    }
}

fn is_excluded(rel: &str, skip: &Vec<String>) -> (r: bool)
    ensures
        r == spec_excluded(rel@, text::views_of(skip@)),
{
    excluded_upto(rel, rel.unicode_len(), skip)
}

fn skip_counted(rel: &str, skip: &Vec<String>) -> (r: bool)
    ensures
        r == text::views_of(skip@).contains(last_component(rel@)),
{
    let n = rel.unicode_len();
    let start = find_seg_start_fwd(rel, n);
    let comp = rel.substring_char(start, n);
    in_skip(comp, skip)
}

/// Plans the copy of the source entries into the destination directory: each
/// entry not excluded by the ignore list, the manifest file name, or the
/// template extension gets an action whose destination path is the joined
/// path rendered against the data.
pub fn copy(entries: &Vec<SourceEntry>, dest: &str, skip: &Vec<String>, data: &DataMap) -> (r:
    Result<(Vec<CopyAction>, CopyResult), Error>)
    requires
        data.wf(),
        forall|i: int|
            0 <= i < entries@.len() ==> template::env_free(
                dest@ + "/"@ + (#[trigger] entries@[i]).rel_path@,
            ),
    ensures
        match r {
            Ok(plan) => spec_copy_model(entries@, dest@, text::views_of(skip@), data@) matches Ok(m)
                && plan.0@.len() == m.actions.len() && (forall|j: int|
                0 <= j < m.actions.len() ==> {
                    let a = #[trigger] plan.0@[j];
                    a.src@ == m.actions[j].0 && a.dest@ == m.actions[j].1 && a.is_dir
                        == m.actions[j].2
                }) && plan.1.copied_count == m.copied && plan.1.skipped_count == m.skipped,
            Err(e) => spec_copy_model(entries@, dest@, text::views_of(skip@), data@) matches Err(p)
                && e.path@ == p,
        },
{
    let n = entries.len();
    let mut actions: Vec<CopyAction> = Vec::new();
    let mut copied: usize = 0;
    let mut skipped: usize = 0;
    let mut i: usize = 0;
    proof {
        assert(entries@.take(0) =~= Seq::<SourceEntry>::empty());
    }
    while i < n
        invariant
            data.wf(),
            forall|j: int|
                0 <= j < entries@.len() ==> template::env_free(
                    dest@ + "/"@ + (#[trigger] entries@[j]).rel_path@,
                ),
            n == entries@.len(),
            i <= n,
            copied <= i,
            skipped <= i,
            ({
                let m = spec_copy_model(entries@.take(i as int), dest@, text::views_of(skip@), data@);
                &&& m matches Ok(mm)
                &&& actions@.len() == mm.actions.len()
                &&& (forall|j: int|
                    0 <= j < mm.actions.len() ==> {
                        let a = #[trigger] actions@[j];
                        a.src@ == mm.actions[j].0 && a.dest@ == mm.actions[j].1 && a.is_dir
                            == mm.actions[j].2
                    })
                &&& copied == mm.copied
                &&& skipped == mm.skipped
            }),
        decreases n - i,
    {
        proof {
            assert(entries@.take(i as int + 1).drop_last() =~= entries@.take(i as int));
            assert(entries@.take(i as int + 1).last() == entries@[i as int]);
        }
        let entry = &entries[i];
        if is_excluded(entry.rel_path.as_str(), skip) {
            if skip_counted(entry.rel_path.as_str(), skip) {
                skipped = skipped + 1;
            }
        } else {
            let joined = {
                let mut j = dest.to_owned();
                j.append("/");
                j.append(entry.rel_path.as_str());
                j
            };
            match template::render_text(joined.as_str(), data) {
                Ok(d) => {
                    actions.push(
                        CopyAction {
                            src: entry.rel_path.clone(),
                            dest: d,
                            is_dir: entry.is_dir,
                        },
                    );
                    if !entry.is_dir {
                        copied = copied + 1;
                    }
                },
                Err(msg) => {
                    proof {
                        let skipv = text::views_of(skip@);
                        assert(spec_copy_model(entries@.take(i as int + 1), dest@, skipv, data@)
                            == Result::<CopyModel, Seq<char>>::Err(joined@));
                        lemma_copy_err_stable(
                            entries@,
                            dest@,
                            skipv,
                            data@,
                            i as int + 1,
                            n as int,
                        );
                        assert(entries@.take(n as int) =~= entries@);
                    }
                    return Err(Error { path: joined, message: msg });
                },
            }
        }
        i = i + 1;
    }
    proof {
        assert(entries@.take(n as int) =~= entries@);
    }
    Ok((actions, CopyResult { copied_count: copied, skipped_count: skipped }))
}

} // verus!
