//! The agency: roles (what an agent does), motivations (why it acts), the
//! agents that pair them, and the prompts rendered from them.
use vstd::prelude::*;
use vstd::string::*;
use vstd::utf8::is_char_boundary;
use crate::graph::{LogEntry, LogEntryView, opt_str, strs};
use crate::check::views;
use crate::text::{clone_strs, str_eq};
use crate::fmt::{decimal, push_u64};

verus! {

/// A skill with its name and content loaded.
#[derive(Debug, Clone)]
pub struct ResolvedSkill {
    pub name: String,
    pub content: String,
}

pub ghost struct ResolvedSkillView {
    pub name: Seq<char>,
    pub content: Seq<char>,
}

impl View for ResolvedSkill {
    type V = ResolvedSkillView;

    open spec fn view(&self) -> ResolvedSkillView {
        ResolvedSkillView { name: self.name@, content: self.content@ }
    }
}

/// Where a skill definition comes from.
#[derive(Debug, Clone)]
pub enum SkillRef {
    /// A bare tag.
    Name(String),
    /// A file path (`~` is the home directory; relative paths start at the project root).
    File(String),
    /// A URL to fetch.
    Url(String),
    /// The content itself.
    Inline(String),
}

/// What resolving a skill needs: the result, or first the reading of a file.
#[derive(Debug)]
pub enum SkillLookup {
    Resolved(Result<ResolvedSkill, String>),
    ReadFile(String),
}

/// Fetching a skill by URL: this build has no HTTP support, so it is refused.
pub fn resolve_url(url: &str) -> (r: Result<ResolvedSkill, String>)
    ensures
        match r {
            Ok(_) => false,
            Err(m) => m@ == "Cannot fetch skill URL "@ + url@
                + " (built without HTTP support; enable matrix-lite feature)"@,
        },
{
    let mut m = "Cannot fetch skill URL ".to_string();
    m.append(url);
    m.append(" (built without HTTP support; enable matrix-lite feature)");
    Err(m)
}

/// Resolve a skill reference: a name is its own content, inline content is
/// named `inline`, a URL cannot be fetched, and a file must be read first.
pub fn resolve_skill(skill: &SkillRef) -> (r: SkillLookup)
    ensures
        match *skill {
            SkillRef::Name(n) => r matches SkillLookup::Resolved(Ok(s)) && s.name@ == n@ && s.content@ == n@,
            SkillRef::Inline(c) => r matches SkillLookup::Resolved(Ok(s)) && s.name@ == "inline"@
                && s.content@ == c@,
            SkillRef::Url(u) => r matches SkillLookup::Resolved(Err(m)) && m@ == "Cannot fetch skill URL "@
                + u@ + " (built without HTTP support; enable matrix-lite feature)"@,
            SkillRef::File(p) => r matches SkillLookup::ReadFile(q) && q@ == p@,
        },
{
    match skill {
        SkillRef::Name(name) => SkillLookup::Resolved(Ok(ResolvedSkill { name: name.clone(), content: name.clone() })),
        SkillRef::File(path) => SkillLookup::ReadFile(path.clone()),
        SkillRef::Url(url) => SkillLookup::Resolved(resolve_url(url.as_str())),
        SkillRef::Inline(content) => SkillLookup::Resolved(
            Ok(ResolvedSkill { name: "inline".to_string(), content: content.clone() }),
        ),
    }
}

/// Where a role or motivation came from.
#[derive(Debug, Clone)]
pub struct Lineage {
    /// None for manual items, one for a mutation, several for a crossover.
    pub parent_ids: Vec<String>,
    /// 0 for manual items, one more than the parents' for evolved ones.
    pub generation: u32,
    /// `human` or `evolver-<run id>`.
    pub created_by: String,
    /// RFC 3339 creation time.
    pub created_at: String,
}

pub ghost struct LineageView {
    pub parent_ids: Seq<Seq<char>>,
    pub generation: u32,
    pub created_by: Seq<char>,
    pub created_at: Seq<char>,
}

impl View for Lineage {
    type V = LineageView;

    open spec fn view(&self) -> LineageView {
        LineageView {
            parent_ids: strs(self.parent_ids),
            generation: self.generation,
            created_by: self.created_by@,
            created_at: self.created_at@,
        }
    }
}

/// Who creates items by hand.
pub fn default_created_by() -> (r: String)
    ensures
        r@ == "human"@,
{
    "human".to_string()
}

impl Lineage {
    /// The lineage of a hand-made item, created at `created_at`.
    pub fn manual(created_at: String) -> (r: Lineage)
        ensures
            r@ == (LineageView { parent_ids: Seq::empty(), generation: 0, created_by: "human"@, created_at: created_at@ }),
    {
        let r = Lineage { parent_ids: Vec::new(), generation: 0, created_by: default_created_by(), created_at };
        assert(strs(r.parent_ids) =~= Seq::<Seq<char>>::empty());
        r
    }

    /// The lineage of a mutation of one parent by evolver run `run_id`.
    pub fn mutation(parent_id: &str, parent_generation: u32, run_id: &str, created_at: String) -> (r: Lineage)
        requires
            parent_generation < u32::MAX,
        ensures
            r@ == (LineageView {
                parent_ids: seq![parent_id@],
                generation: (parent_generation + 1) as u32,
                created_by: "evolver-"@ + run_id@,
                created_at: created_at@,
            }),
    {
        let mut parents: Vec<String> = Vec::new();
        parents.push(parent_id.to_string());
        assert(strs(parents) =~= seq![parent_id@]);
        let mut by = "evolver-".to_string();
        by.append(run_id);
        Lineage { parent_ids: parents, generation: parent_generation + 1, created_by: by, created_at }
    }

    /// The lineage of a crossover of several parents by evolver run `run_id`.
    pub fn crossover(parent_ids: &Vec<String>, max_parent_generation: u32, run_id: &str, created_at: String) -> (r: Lineage)
        requires
            max_parent_generation < u32::MAX,
        ensures
            r@ == (LineageView {
                parent_ids: strs(*parent_ids),
                generation: (max_parent_generation + 1) as u32,
                created_by: "evolver-"@ + run_id@,
                created_at: created_at@,
            }),
    {
        let mut by = "evolver-".to_string();
        by.append(run_id);
        Lineage {
            parent_ids: clone_strs(parent_ids),
            generation: max_parent_generation + 1,
            created_by: by,
            created_at,
        }
    }
}

/// What an agent does: purpose, skills and desired outcome.
#[derive(Debug, Clone)]
pub struct Role {
    pub id: String,
    pub name: String,
    pub description: String,
    pub skills: Vec<SkillRef>,
    pub desired_outcome: String,
    pub lineage: Lineage,
}

/// Why an agent acts: the trade-offs it accepts and those it refuses.
#[derive(Debug, Clone)]
pub struct Motivation {
    pub id: String,
    pub name: String,
    pub description: String,
    pub acceptable_tradeoffs: Vec<String>,
    pub unacceptable_tradeoffs: Vec<String>,
    pub lineage: Lineage,
}

/// An agent's identity: a role and a motivation.
#[derive(Debug, Clone, PartialEq)]
pub struct AgentIdentity {
    pub role_id: String,
    pub motivation_id: String,
}

/// A named pairing of a role and a motivation.
#[derive(Debug, Clone)]
pub struct Agent {
    pub id: String,
    pub role_id: String,
    pub motivation_id: String,
    pub name: String,
    pub lineage: Lineage,
}

/// An entry of an artifact manifest: a path and, when the file exists, its size.
#[derive(Debug, Clone)]
pub struct ArtifactEntry {
    pub path: String,
    pub size: Option<u64>,
}

// ---------------------------------------------------------------------------
// Short hashes and prefixes
// ---------------------------------------------------------------------------

/// Number of leading characters shown of a content hash.
pub const SHORT_HASH_LEN: usize = 8;

/// Length in bytes of the short form of a string whose encoding has `n` bytes.
pub open spec fn short_len(n: nat) -> int {
    if n < 8 {
        n as int
    } else {
        8
    }
}

/// The characters of the leading `SHORT_HASH_LEN` bytes of `s`.
pub open spec fn short_hash_text(s: Seq<char>) -> Seq<char> {
    vstd::utf8::decode_utf8(vstd::utf8::encode_utf8(s).subrange(0, short_len(vstd::utf8::encode_utf8(s).len())))
}

/// The leading `SHORT_HASH_LEN` bytes of a hash (all of it when shorter).
pub fn short_hash(full_hash: &str) -> (r: &str)
    requires
        is_char_boundary(
            full_hash.spec_bytes(),
            if full_hash.spec_bytes().len() < 8 {
                full_hash.spec_bytes().len() as int
            } else {
                8
            },
        ),
    ensures
        r.spec_bytes() == full_hash.spec_bytes().subrange(
            0,
            if full_hash.spec_bytes().len() < 8 {
                full_hash.spec_bytes().len() as int
            } else {
                8
            },
        ),
        r@ == short_hash_text(full_hash@),
{
    let n = full_hash.as_bytes().len();
    let k = if n < SHORT_HASH_LEN {
        n
    } else {
        SHORT_HASH_LEN
    };
    let (head, _) = full_hash.split_at(k);
    proof {
        vstd::utf8::encode_utf8_decode_utf8(head@);
    }
    head
}

/// Whether `s` begins with `p`.
pub open spec fn has_prefix(s: Seq<char>, p: Seq<char>) -> bool {
    p.len() <= s.len() && s.subrange(0, p.len() as int) == p
}

/// `str::starts_with` for a string pattern.
pub fn starts_with(s: &str, p: &str) -> (r: bool)
    ensures
        r == has_prefix(s@, p@),
{
    let n = s.unicode_len();
    let m = p.unicode_len();
    if m > n {
        return false;
    }
    let mut i: usize = 0;
    while i < m
        invariant
            n == s@.len(),
            m == p@.len(),
            m <= n,
            i <= m,
            forall|j: int| 0 <= j < i ==> s@[j] == p@[j],
        decreases m - i,
    {
        if s.get_char(i) != p.get_char(i) {
            assert(s@.subrange(0, m as int)[i as int] != p@[i as int]);
            return false;
        }
        i = i + 1;
    }
    assert(s@.subrange(0, m as int) =~= p@);
    true
}

/// Why a lookup by id prefix failed.
#[derive(Debug, Clone)]
pub enum AgencyError {
    NotFound(String),
    Ambiguous(String),
}

pub ghost enum AgencyErrorView {
    NotFound(Seq<char>),
    Ambiguous(Seq<char>),
}

impl View for AgencyError {
    type V = AgencyErrorView;

    open spec fn view(&self) -> AgencyErrorView {
        match self {
            AgencyError::NotFound(m) => AgencyErrorView::NotFound(m@),
            AgencyError::Ambiguous(m) => AgencyErrorView::Ambiguous(m@),
        }
    }
}

/// The positions of the ids that begin with `prefix`, in order.
pub open spec fn prefix_matches(ids: Seq<Seq<char>>, prefix: Seq<char>) -> Seq<int>
    decreases ids.len(),
{
    if ids.len() == 0 {
        Seq::empty()
    } else {
        prefix_matches(ids.drop_last(), prefix) + if has_prefix(ids.last(), prefix) {
            seq![ids.len() - 1]
        } else {
            Seq::empty()
        }
    }
}

/// `parts` joined with `sep` between them.
pub open spec fn joined(parts: Seq<Seq<char>>, sep: Seq<char>) -> Seq<char>
    decreases parts.len(),
{
    if parts.len() == 0 {
        Seq::empty()
    } else if parts.len() == 1 {
        parts[0]
    } else {
        joined(parts.drop_last(), sep) + sep + parts.last()
    }
}

/// The outcome of looking up `prefix` among `ids`: the single match, or
/// `No <kind> matching '<prefix>'`, or `Prefix '<prefix>' matches <n> <kind>s: <ids>`.
pub open spec fn prefix_lookup(ids: Seq<Seq<char>>, prefix: Seq<char>, kind: Seq<char>) -> Result<int, AgencyErrorView> {
    let ms = prefix_matches(ids, prefix);
    if ms.len() == 0 {
        Err(AgencyErrorView::NotFound("No "@ + kind + " matching '"@ + prefix + "'"@))
    } else if ms.len() == 1 {
        Ok(ms[0])
    } else {
        Err(
            AgencyErrorView::Ambiguous(
                "Prefix '"@ + prefix + "' matches "@ + decimal(ms.len()) + " "@ + kind + "s: "@ + joined(
                    ms.map_values(|k: int| ids[k]),
                    ", "@,
                ),
            ),
        )
    }
}

proof fn lemma_prefix_matches_bounds(ids: Seq<Seq<char>>, prefix: Seq<char>)
    ensures
        prefix_matches(ids, prefix).len() <= ids.len(),
        forall|k: int| 0 <= k < prefix_matches(ids, prefix).len() ==> 0 <= #[trigger] prefix_matches(ids, prefix)[k] < ids.len(),
    decreases ids.len(),
{
    if ids.len() > 0 {
        lemma_prefix_matches_bounds(ids.drop_last(), prefix);
    }
}

/// Find the id that begins with `prefix` among `ids`; `kind` names what the
/// ids are (role, motivation, agent) in the error messages.
pub fn find_by_prefix(ids: &Vec<String>, prefix: &str, kind: &str) -> (r: Result<usize, AgencyError>)
    ensures
        match r {
            Ok(i) => prefix_lookup(strs(*ids), prefix@, kind@) == Ok::<int, AgencyErrorView>(i as int),
            Err(e) => prefix_lookup(strs(*ids), prefix@, kind@) == Err::<int, AgencyErrorView>(e@),
        },
{
    let ghost sv = strs(*ids);
    let mut matches: Vec<usize> = Vec::new();
    let mut i: usize = 0;
    while i < ids.len()
        invariant
            i <= ids.len(),
            sv == strs(*ids),
            matches@.len() <= i,
            matches@.map_values(|k: usize| k as int) == prefix_matches(sv.take(i as int), prefix@),
            forall|k: int| 0 <= k < matches@.len() ==> #[trigger] matches@[k] < i,
        decreases ids.len() - i,
    {
        assert(sv.take(i + 1).drop_last() =~= sv.take(i as int));
        assert(sv.take(i + 1).last() == ids@[i as int]@);
        if starts_with(ids[i].as_str(), prefix) {
            let ghost before = matches@;
            matches.push(i);
            assert(matches@.map_values(|k: usize| k as int) =~= before.map_values(|k: usize| k as int).push(i as int));
        }
        assert(matches@.map_values(|k: usize| k as int) =~= prefix_matches(sv.take(i + 1), prefix@));
        i = i + 1;
    }
    assert(sv.take(ids.len() as int) =~= sv);
    let ghost ms = prefix_matches(sv, prefix@);
    assert(matches@.len() == ms.len());
    if matches.len() == 0 {
        let mut m = "No ".to_string();
        m.append(kind);
        m.append(" matching '");
        m.append(prefix);
        m.append("'");
        Err(AgencyError::NotFound(m))
    } else if matches.len() == 1 {
        assert(ms[0] == matches@[0] as int);
        Ok(matches[0])
    } else {
        let mut m = "Prefix '".to_string();
        m.append(prefix);
        m.append("' matches ");
        push_u64(&mut m, matches.len() as u64);
        m.append(" ");
        m.append(kind);
        m.append("s: ");
        let ghost listed = ms.map_values(|k: int| sv[k]);
        let ghost head = m@;
        let mut q: usize = 0;
        while q < matches.len()
            invariant
                q <= matches@.len(),
                matches@.len() == ms.len(),
                ms.len() >= 2,
                matches@.map_values(|k: usize| k as int) == ms,
                forall|k: int| 0 <= k < matches@.len() ==> #[trigger] matches@[k] < ids@.len(),
                sv == strs(*ids),
                listed == ms.map_values(|k: int| sv[k]),
                m@ == head + joined(listed.take(q as int), ", "@),
            decreases matches@.len() - q,
        {
            assert(matches@[q as int] < ids@.len());
            assert(listed[q as int] == ids@[matches@[q as int] as int]@) by {
                assert(ms[q as int] == matches@[q as int] as int);
            }
            let ghost before = m@;
            if q > 0 {
                m.append(", ");
            }
            m.append(ids[matches[q]].as_str());
            assert(listed.take(q + 1).drop_last() =~= listed.take(q as int));
            if q == 0 {
                assert(joined(listed.take(1), ", "@) == listed[0]);
                assert(m@ =~= head + joined(listed.take(q + 1), ", "@));
            } else {
                assert(m@ =~= head + joined(listed.take(q + 1), ", "@));
            }
            q = q + 1;
        }
        assert(listed.take(matches@.len() as int) =~= listed);
        Err(AgencyError::Ambiguous(m))
    }
}

// ---------------------------------------------------------------------------
// Prompt rendering
// ---------------------------------------------------------------------------

/// The views of a sequence of strings.
pub open spec fn str_views(s: Seq<String>) -> Seq<Seq<char>> {
    s.map_values(|x: String| x@)
}

/// Each item between `pre` and `post`, all concatenated.
pub open spec fn wrapped(items: Seq<Seq<char>>, pre: Seq<char>, post: Seq<char>) -> Seq<char>
    decreases items.len(),
{
    if items.len() == 0 {
        Seq::empty()
    } else {
        wrapped(items.drop_last(), pre, post) + pre + items.last() + post
    }
}

/// Append every item between `pre` and `post`.
pub fn push_wrapped(out: &mut String, items: &[String], pre: &str, post: &str)
    ensures
        final(out)@ == old(out)@ + wrapped(str_views(items@), pre@, post@),
{
    let ghost start = out@;
    let ghost sv = str_views(items@);
    let mut i: usize = 0;
    while i < items.len()
        invariant
            i <= items@.len(),
            sv == str_views(items@),
            out@ == start + wrapped(sv.take(i as int), pre@, post@),
        decreases items@.len() - i,
    {
        out.append(pre);
        out.append(items[i].as_str());
        out.append(post);
        assert(sv.take(i + 1).drop_last() =~= sv.take(i as int));
        assert(sv.take(i + 1).last() == items@[i as int]@);
        assert(out@ =~= start + wrapped(sv.take(i + 1), pre@, post@));
        i = i + 1;
    }
    assert(sv.take(items@.len() as int) =~= sv);
}

/// One block per skill: a heading with its name, then its content.
pub open spec fn skill_blocks(skills: Seq<ResolvedSkillView>) -> Seq<char>
    decreases skills.len(),
{
    if skills.len() == 0 {
        Seq::empty()
    } else {
        skill_blocks(skills.drop_last()) + "### "@ + skills.last().name + "\n"@ + skills.last().content
            + "\n\n"@
    }
}

/// The identity section injected into an agent's prompt.
pub open spec fn identity_prompt(
    role_name: Seq<char>,
    role_description: Seq<char>,
    desired_outcome: Seq<char>,
    skills: Seq<ResolvedSkillView>,
    acceptable: Seq<Seq<char>>,
    unacceptable: Seq<Seq<char>>,
) -> Seq<char> {
    "## Agent Identity\n\n"@ + "### Role: "@ + role_name + "\n"@ + role_description + "\n\n"@ + (if skills.len()
        > 0 {
        "#### Skills\n"@ + skill_blocks(skills)
    } else {
        Seq::empty()
    }) + "#### Desired Outcome\n"@ + desired_outcome + "\n\n"@ + "### Operational Parameters\n"@
        + "#### Acceptable Trade-offs\n"@ + wrapped(acceptable, "- "@, "\n"@) + "\n"@
        + "#### Non-negotiable Constraints\n"@ + wrapped(unacceptable, "- "@, "\n"@) + "\n"@ + "---"@
}

/// The identity section to inject into an agent's prompt, between the system
/// context and the task description.
pub fn render_identity_prompt(role: &Role, motivation: &Motivation, resolved_skills: &Vec<ResolvedSkill>) -> (r: String)
    ensures
        r@ == identity_prompt(
            role.name@,
            role.description@,
            role.desired_outcome@,
            views(resolved_skills@),
            strs(motivation.acceptable_tradeoffs),
            strs(motivation.unacceptable_tradeoffs),
        ),
{
    let mut out = String::new();
    out.append("## Agent Identity\n\n");
    out.append("### Role: ");
    out.append(role.name.as_str());
    out.append("\n");
    out.append(role.description.as_str());
    out.append("\n\n");
    let ghost head = out@;
    let ghost sk = views(resolved_skills@);
    if resolved_skills.len() > 0 {
        out.append("#### Skills\n");
        let ghost start = out@;
        let mut i: usize = 0;
        while i < resolved_skills.len()
            invariant
                i <= resolved_skills@.len(),
                sk == views(resolved_skills@),
                out@ == start + skill_blocks(sk.take(i as int)),
            decreases resolved_skills@.len() - i,
        {
            let skill = &resolved_skills[i];
            out.append("### ");
            out.append(skill.name.as_str());
            out.append("\n");
            out.append(skill.content.as_str());
            out.append("\n\n");
            assert(sk.take(i + 1).drop_last() =~= sk.take(i as int));
            assert(sk.take(i + 1).last() == skill@);
            assert(out@ =~= start + skill_blocks(sk.take(i + 1)));
            i = i + 1;
        }
        assert(sk.take(resolved_skills@.len() as int) =~= sk);
    }
    out.append("#### Desired Outcome\n");
    out.append(role.desired_outcome.as_str());
    out.append("\n\n");
    out.append("### Operational Parameters\n");
    out.append("#### Acceptable Trade-offs\n");
    push_wrapped(&mut out, motivation.acceptable_tradeoffs.as_slice(), "- ", "\n");
    out.append("\n");
    out.append("#### Non-negotiable Constraints\n");
    push_wrapped(&mut out, motivation.unacceptable_tradeoffs.as_slice(), "- ", "\n");
    out.append("\n");
    out.append("---");
    proof {
        assert(str_views(motivation.acceptable_tradeoffs@) == strs(motivation.acceptable_tradeoffs));
        assert(str_views(motivation.unacceptable_tradeoffs@) == strs(motivation.unacceptable_tradeoffs));
    }
    assert(out@ =~= identity_prompt(
        role.name@,
        role.description@,
        role.desired_outcome@,
        sk,
        strs(motivation.acceptable_tradeoffs),
        strs(motivation.unacceptable_tradeoffs),
    ));
    out
}

/// What the evaluator prompt is rendered from.
pub struct EvaluatorInput<'a> {
    pub task_title: &'a str,
    pub task_description: Option<&'a str>,
    pub task_skills: &'a [String],
    /// Verification criteria, if any.
    pub verify: Option<&'a str>,
    /// The agent that worked on the task, if one was assigned.
    pub agent: Option<&'a Agent>,
    pub role: Option<&'a Role>,
    pub motivation: Option<&'a Motivation>,
    /// Produced artifacts (paths or references).
    pub artifacts: &'a [String],
    pub log_entries: &'a [LogEntry],
    /// Start time (ISO 8601), if known.
    pub started_at: Option<&'a str>,
    /// Completion time (ISO 8601), if known.
    pub completed_at: Option<&'a str>,
}

/// The view of an optional string slice.
pub open spec fn opt_text(o: Option<&str>) -> Option<Seq<char>> {
    match o {
        Some(s) => Some(s@),
        None => None,
    }
}

/// A text when present, nothing otherwise.
pub open spec fn when_some(o: Option<Seq<char>>, pre: Seq<char>, post: Seq<char>) -> Seq<char> {
    match o {
        Some(s) => pre + s + post,
        None => Seq::empty(),
    }
}

pub open spec fn evaluator_intro_text() -> Seq<char> {
    "# Evaluator Instructions\n\n"@
        + "You are an evaluator assessing the quality of work performed by an AI agent.\n\
         Review the task definition, the agent identity that was used, the produced artifacts,\n\
         and the task log. Then produce a JSON evaluation.\n\n"@
}

pub open spec fn evaluator_rubric_text() -> Seq<char> {
    "## Evaluation Criteria\n\n"@
        + "Assess the agent's work on these dimensions (each scored 0.0 to 1.0):\n\n\
         1. **correctness** — Does the output match the desired outcome? Are verification\n\
            criteria satisfied? Is the implementation functionally correct?\n\
         2. **completeness** — Were all aspects of the task addressed? Are there missing\n\
            pieces, unhandled edge cases, or incomplete deliverables?\n\
         3. **efficiency** — Was the work done efficiently within the allowed parameters?\n\
            Minimal unnecessary steps, no wasted effort, appropriate scope.\n\
         4. **style_adherence** — Does the output follow project conventions, coding\n\
            standards, and the constraints set by the motivation (trade-offs respected,\n\
            non-negotiable constraints honoured)?\n\n"@
        + "Compute an overall **score** as a weighted average:\n\
         - correctness: 40%\n\
         - completeness: 30%\n\
         - efficiency: 15%\n\
         - style_adherence: 15%\n\n"@
        + "## Required Output\n\n"@
        + "Respond with **only** a JSON object (no markdown fences, no commentary):\n\n\
         ```\n\
         {\n  \
           \"score\": <0.0-1.0>,\n  \
           \"dimensions\": {\n    \
             \"correctness\": <0.0-1.0>,\n    \
             \"completeness\": <0.0-1.0>,\n    \
             \"efficiency\": <0.0-1.0>,\n    \
             \"style_adherence\": <0.0-1.0>\n  \
           },\n  \
           \"notes\": \"<brief explanation of strengths, weaknesses, and suggestions>\"\n\
         }\n\
         ```\n"@
}

fn push_intro(out: &mut String)
    ensures
        final(out)@ == old(out)@ + evaluator_intro_text(),
{
    out.append("# Evaluator Instructions\n\n");
    out.append(
        "You are an evaluator assessing the quality of work performed by an AI agent.\n\
         Review the task definition, the agent identity that was used, the produced artifacts,\n\
         and the task log. Then produce a JSON evaluation.\n\n",
    );
    assert(out@ =~= old(out)@ + evaluator_intro_text());
}

fn push_rubric(out: &mut String)
    ensures
        final(out)@ == old(out)@ + evaluator_rubric_text(),
{
    out.append("## Evaluation Criteria\n\n");
    out.append(
        "Assess the agent's work on these dimensions (each scored 0.0 to 1.0):\n\n\
         1. **correctness** — Does the output match the desired outcome? Are verification\n\
            criteria satisfied? Is the implementation functionally correct?\n\
         2. **completeness** — Were all aspects of the task addressed? Are there missing\n\
            pieces, unhandled edge cases, or incomplete deliverables?\n\
         3. **efficiency** — Was the work done efficiently within the allowed parameters?\n\
            Minimal unnecessary steps, no wasted effort, appropriate scope.\n\
         4. **style_adherence** — Does the output follow project conventions, coding\n\
            standards, and the constraints set by the motivation (trade-offs respected,\n\
            non-negotiable constraints honoured)?\n\n",
    );
    out.append(
        "Compute an overall **score** as a weighted average:\n\
         - correctness: 40%\n\
         - completeness: 30%\n\
         - efficiency: 15%\n\
         - style_adherence: 15%\n\n",
    );
    out.append("## Required Output\n\n");
    out.append(
        "Respond with **only** a JSON object (no markdown fences, no commentary):\n\n\
         ```\n\
         {\n  \
           \"score\": <0.0-1.0>,\n  \
           \"dimensions\": {\n    \
             \"correctness\": <0.0-1.0>,\n    \
             \"completeness\": <0.0-1.0>,\n    \
             \"efficiency\": <0.0-1.0>,\n    \
             \"style_adherence\": <0.0-1.0>\n  \
           },\n  \
           \"notes\": \"<brief explanation of strengths, weaknesses, and suggestions>\"\n\
         }\n\
         ```\n",
    );
    assert(out@ =~= old(out)@ + evaluator_rubric_text());
}

/// The task section: title, description, required skills, verification criteria.
pub open spec fn task_section(
    title: Seq<char>,
    description: Option<Seq<char>>,
    skills: Seq<Seq<char>>,
    verify: Option<Seq<char>>,
) -> Seq<char> {
    "## Task Definition\n\n"@ + "**Title:** "@ + title + "\n\n"@ + when_some(description, "**Description:**\n"@, "\n\n"@)
        + (if skills.len() > 0 {
        "**Required Skills:**\n"@ + wrapped(skills, "- "@, "\n"@) + "\n"@
    } else {
        Seq::empty()
    }) + when_some(verify, "**Verification Criteria:**\n"@, "\n\n"@)
}

/// The agent line: its name and short hash.
pub open spec fn agent_part(agent: Option<(Seq<char>, Seq<char>)>) -> Seq<char> {
    match agent {
        Some((name, id)) => "**Agent:** "@ + name + " ("@ + short_hash_text(id) + ")\n\n"@,
        None => Seq::empty(),
    }
}

/// The role part: name, id, description and desired outcome.
pub open spec fn role_part(role: Option<(Seq<char>, Seq<char>, Seq<char>, Seq<char>)>) -> Seq<char> {
    match role {
        Some((name, id, description, outcome)) => "**Role:** "@ + name + " ("@ + id + ")\n"@ + description
            + "\n\n"@ + "**Desired Outcome:** "@ + outcome + "\n\n"@,
        None => "*No role was assigned.*\n\n"@,
    }
}

/// The motivation part: name, id, description and trade-offs.
pub open spec fn motivation_part(
    m: Option<(Seq<char>, Seq<char>, Seq<char>, Seq<Seq<char>>, Seq<Seq<char>>)>,
) -> Seq<char> {
    match m {
        Some((name, id, description, acc, unacc)) => "**Motivation:** "@ + name + " ("@ + id + ")\n"@
            + description + "\n\n"@ + (if acc.len() > 0 {
            "**Acceptable Trade-offs:**\n"@ + wrapped(acc, "- "@, "\n"@) + "\n"@
        } else {
            Seq::empty()
        }) + (if unacc.len() > 0 {
            "**Non-negotiable Constraints:**\n"@ + wrapped(unacc, "- "@, "\n"@) + "\n"@
        } else {
            Seq::empty()
        }),
        None => "*No motivation was assigned.*\n\n"@,
    }
}

/// One line per log entry: time, actor (or `system`), message.
pub open spec fn log_lines(log: Seq<LogEntryView>) -> Seq<char>
    decreases log.len(),
{
    if log.len() == 0 {
        Seq::empty()
    } else {
        let e = log.last();
        log_lines(log.drop_last()) + "- ["@ + e.timestamp + "] ("@ + match e.actor {
            Some(a) => a,
            None => "system"@,
        } + "): "@ + e.message + "\n"@
    }
}

/// The artifact section.
pub open spec fn artifacts_section(artifacts: Seq<Seq<char>>) -> Seq<char> {
    "## Task Artifacts\n\n"@ + if artifacts.len() == 0 {
        "*No artifacts were recorded.*\n\n"@
    } else {
        wrapped(artifacts, "- `"@, "`\n"@) + "\n"@
    }
}

/// The log section.
pub open spec fn log_section(log: Seq<LogEntryView>) -> Seq<char> {
    "## Task Log\n\n"@ + if log.len() == 0 {
        "*No log entries.*\n\n"@
    } else {
        log_lines(log) + "\n"@
    }
}

/// The timing section, when a start or completion time is known.
pub open spec fn timing_section(started: Option<Seq<char>>, completed: Option<Seq<char>>) -> Seq<char> {
    if started is Some || completed is Some {
        "## Timing\n\n"@ + when_some(started, "- Started: "@, "\n"@) + when_some(completed, "- Completed: "@, "\n"@)
            + "\n"@
    } else {
        Seq::empty()
    }
}

/// The artifact, log and timing sections.
pub open spec fn record_sections(
    artifacts: Seq<Seq<char>>,
    log: Seq<LogEntryView>,
    started: Option<Seq<char>>,
    completed: Option<Seq<char>>,
) -> Seq<char> {
    artifacts_section(artifacts) + log_section(log) + timing_section(started, completed)
}

/// The agent, role and motivation of an evaluator input, as plain values.
pub open spec fn input_agent(input: EvaluatorInput) -> Option<(Seq<char>, Seq<char>)> {
    match input.agent {
        Some(a) => Some((a.name@, a.id@)),
        None => None,
    }
}

pub open spec fn input_role(input: EvaluatorInput) -> Option<(Seq<char>, Seq<char>, Seq<char>, Seq<char>)> {
    match input.role {
        Some(r) => Some((r.name@, r.id@, r.description@, r.desired_outcome@)),
        None => None,
    }
}

pub open spec fn input_motivation(input: EvaluatorInput) -> Option<
    (Seq<char>, Seq<char>, Seq<char>, Seq<Seq<char>>, Seq<Seq<char>>),
> {
    match input.motivation {
        Some(m) => Some(
            (
                m.name@,
                m.id@,
                m.description@,
                strs(m.acceptable_tradeoffs),
                strs(m.unacceptable_tradeoffs),
            ),
        ),
        None => None,
    }
}

/// The whole evaluator prompt.
pub open spec fn evaluator_prompt(input: EvaluatorInput) -> Seq<char> {
    evaluator_intro_text() + task_section(
        input.task_title@,
        opt_text(input.task_description),
        str_views(input.task_skills@),
        opt_text(input.verify),
    ) + "## Agent Identity\n\n"@ + agent_part(input_agent(input)) + role_part(input_role(input))
        + motivation_part(input_motivation(input)) + record_sections(
        str_views(input.artifacts@),
        input.log_entries@.map_values(|e: LogEntry| e@),
        opt_text(input.started_at),
        opt_text(input.completed_at),
    ) + evaluator_rubric_text()
}

proof fn lemma_starts_with(whole: Seq<char>, h: Seq<char>)
    requires
        h.len() <= whole.len(),
        whole.subrange(0, h.len() as int) == h,
    ensures
        whole == h + whole.skip(h.len() as int),
{
    assert(whole =~= h + whole.skip(h.len() as int));
}

proof fn lemma_intro_head()
    ensures
        evaluator_intro_text() == "# Evaluator Instructions\n\n"@ + evaluator_intro_text().skip(
            "# Evaluator Instructions\n\n"@.len() as int,
        ),
{
    let h = "# Evaluator Instructions\n\n"@;
    let w = evaluator_intro_text();
    assert(w.subrange(0, h.len() as int) =~= h);
    lemma_starts_with(w, h);
}

proof fn lemma_task_head(title: Seq<char>, d: Option<Seq<char>>, sk: Seq<Seq<char>>, v: Option<Seq<char>>)
    ensures
        task_section(title, d, sk, v) == "## Task Definition\n\n"@ + task_section(title, d, sk, v).skip(
            "## Task Definition\n\n"@.len() as int,
        ),
{
    let h = "## Task Definition\n\n"@;
    let w = task_section(title, d, sk, v);
    assert(w.subrange(0, h.len() as int) =~= h);
    lemma_starts_with(w, h);
}

proof fn lemma_artifacts_head(arts: Seq<Seq<char>>)
    ensures
        artifacts_section(arts) == "## Task Artifacts\n\n"@ + artifacts_section(arts).skip(
            "## Task Artifacts\n\n"@.len() as int,
        ),
{
    let h = "## Task Artifacts\n\n"@;
    let w = artifacts_section(arts);
    assert(w.subrange(0, h.len() as int) =~= h);
    lemma_starts_with(w, h);
}

proof fn lemma_log_head(log: Seq<LogEntryView>)
    ensures
        log_section(log) == "## Task Log\n\n"@ + log_section(log).skip("## Task Log\n\n"@.len() as int),
{
    let h = "## Task Log\n\n"@;
    let w = log_section(log);
    assert(w.subrange(0, h.len() as int) =~= h);
    lemma_starts_with(w, h);
}

proof fn lemma_timing_head(st: Option<Seq<char>>, co: Option<Seq<char>>)
    ensures
        st is Some || co is Some ==> timing_section(st, co) == "## Timing\n\n"@ + timing_section(st, co).skip(
            "## Timing\n\n"@.len() as int,
        ),
        !(st is Some || co is Some) ==> timing_section(st, co) == Seq::<char>::empty(),
{
    if st is Some || co is Some {
        let h = "## Timing\n\n"@;
        let w = timing_section(st, co);
        assert(w.subrange(0, h.len() as int) =~= h);
        lemma_starts_with(w, h);
    }
}

proof fn lemma_rubric_head()
    ensures
        evaluator_rubric_text() == "## Evaluation Criteria\n\n"@ + evaluator_rubric_text().skip(
            "## Evaluation Criteria\n\n"@.len() as int,
        ),
{
    let h = "## Evaluation Criteria\n\n"@;
    let w = evaluator_rubric_text();
    assert(w.subrange(0, h.len() as int) =~= h);
    lemma_starts_with(w, h);
}

proof fn lemma_layout(
    h1: Seq<char>, a: Seq<char>, h2: Seq<char>, b: Seq<char>, h3: Seq<char>, c: Seq<char>, h4: Seq<char>, d: Seq<char>,
    h5: Seq<char>, e: Seq<char>, t: Seq<char>, h7: Seq<char>, g: Seq<char>,
)
    ensures
        (h1 + a) + (h2 + b) + h3 + c + (h4 + d) + (h5 + e) + t + (h7 + g) == h1 + a + h2 + b + h3 + c + h4 + d + h5 + e + t
            + h7 + g,
{
    assert((h1 + a) + (h2 + b) + h3 + c + (h4 + d) + (h5 + e) + t + (h7 + g) =~= h1 + a + h2 + b + h3 + c + h4 + d + h5
        + e + t + h7 + g);
}

/// The evaluator prompt laid out as its section headers with the given
/// texts between them.
pub open spec fn sections_layout(
    input: EvaluatorInput,
    a: Seq<char>,
    b: Seq<char>,
    c: Seq<char>,
    d: Seq<char>,
    e: Seq<char>,
    f: Seq<char>,
    g: Seq<char>,
) -> bool {
    evaluator_prompt(input) == "# Evaluator Instructions\n\n"@ + a + "## Task Definition\n\n"@ + b
        + "## Agent Identity\n\n"@ + c + "## Task Artifacts\n\n"@ + d + "## Task Log\n\n"@ + e + (if input.started_at
        is Some || input.completed_at is Some {
        "## Timing\n\n"@ + f
    } else {
        Seq::<char>::empty()
    }) + "## Evaluation Criteria\n\n"@ + g
}

/// The evaluator prompt's sections come in a fixed order: the instructions,
/// the task definition, the agent identity, the artifacts, the log, the
/// timing (only when a start or completion time is known), then the
/// evaluation criteria, which end with the required output.
pub proof fn law_evaluator_sections_in_order(input: EvaluatorInput)
    ensures
        exists|a: Seq<char>, b: Seq<char>, c: Seq<char>, d: Seq<char>, e: Seq<char>, f: Seq<char>, g: Seq<char>|
            #[trigger] sections_layout(input, a, b, c, d, e, f, g),
{
    let title = input.task_title@;
    let desc = opt_text(input.task_description);
    let skills = str_views(input.task_skills@);
    let verify = opt_text(input.verify);
    let arts = str_views(input.artifacts@);
    let log = input.log_entries@.map_values(|x: LogEntry| x@);
    let st = opt_text(input.started_at);
    let co = opt_text(input.completed_at);
    lemma_intro_head();
    lemma_task_head(title, desc, skills, verify);
    lemma_artifacts_head(arts);
    lemma_log_head(log);
    lemma_timing_head(st, co);
    lemma_rubric_head();
    let a = evaluator_intro_text().skip("# Evaluator Instructions\n\n"@.len() as int);
    let b = task_section(title, desc, skills, verify).skip("## Task Definition\n\n"@.len() as int);
    let c = agent_part(input_agent(input)) + role_part(input_role(input)) + motivation_part(input_motivation(input));
    let d = artifacts_section(arts).skip("## Task Artifacts\n\n"@.len() as int);
    let e = log_section(log).skip("## Task Log\n\n"@.len() as int);
    let f = timing_section(st, co).skip("## Timing\n\n"@.len() as int);
    let g = evaluator_rubric_text().skip("## Evaluation Criteria\n\n"@.len() as int);
    let t = if input.started_at is Some || input.completed_at is Some {
        "## Timing\n\n"@ + f
    } else {
        Seq::<char>::empty()
    };
    assert(timing_section(st, co) == t);
    lemma_layout(
        "# Evaluator Instructions\n\n"@, a, "## Task Definition\n\n"@, b, "## Agent Identity\n\n"@, c,
        "## Task Artifacts\n\n"@, d, "## Task Log\n\n"@, e, t, "## Evaluation Criteria\n\n"@, g,
    );
    assert(evaluator_prompt(input) == evaluator_intro_text() + task_section(title, desc, skills, verify)
        + "## Agent Identity\n\n"@ + agent_part(input_agent(input)) + role_part(input_role(input)) + motivation_part(
        input_motivation(input),
    ) + (artifacts_section(arts) + log_section(log) + timing_section(st, co)) + evaluator_rubric_text());
    assert(evaluator_prompt(input) == evaluator_intro_text() + task_section(title, desc, skills, verify)
        + "## Agent Identity\n\n"@ + c + artifacts_section(arts) + log_section(log) + timing_section(st, co)
        + evaluator_rubric_text()) by {
        let x = evaluator_intro_text() + task_section(title, desc, skills, verify) + "## Agent Identity\n\n"@;
        assert(x + agent_part(input_agent(input)) + role_part(input_role(input)) + motivation_part(
            input_motivation(input),
        ) =~= x + c);
        let y = x + c;
        assert(y + (artifacts_section(arts) + log_section(log) + timing_section(st, co)) =~= y + artifacts_section(arts)
            + log_section(log) + timing_section(st, co));
    }
    assert(sections_layout(input, a, b, c, d, e, f, g));
}

/// The agent's id must be cut at a character boundary for its short form.
pub open spec fn agent_id_cuttable(input: EvaluatorInput) -> bool {
    match input.agent {
        Some(a) => is_char_boundary(
            vstd::utf8::encode_utf8(a.id@),
            short_len(vstd::utf8::encode_utf8(a.id@).len()),
        ),
        None => true,
    }
}

fn push_when_some(out: &mut String, o: Option<&str>, pre: &str, post: &str)
    ensures
        final(out)@ == old(out)@ + when_some(opt_text(o), pre@, post@),
{
    if let Some(t) = o {
        out.append(pre);
        out.append(t);
        out.append(post);
    }
    assert(out@ =~= old(out)@ + when_some(opt_text(o), pre@, post@));
}

fn push_log_lines(out: &mut String, log: &[LogEntry])
    ensures
        final(out)@ == old(out)@ + log_lines(log@.map_values(|e: LogEntry| e@)),
{
    let ghost start = out@;
    let ghost lv = log@.map_values(|e: LogEntry| e@);
    let mut i: usize = 0;
    while i < log.len()
        invariant
            i <= log@.len(),
            lv == log@.map_values(|e: LogEntry| e@),
            out@ == start + log_lines(lv.take(i as int)),
        decreases log@.len() - i,
    {
        let e = &log[i];
        out.append("- [");
        out.append(e.timestamp.as_str());
        out.append("] (");
        match &e.actor {
            Some(a) => out.append(a.as_str()),
            None => out.append("system"),
        }
        out.append("): ");
        out.append(e.message.as_str());
        out.append("\n");
        assert(lv.take(i + 1).drop_last() =~= lv.take(i as int));
        assert(lv.take(i + 1).last() == e@);
        assert(out@ =~= start + log_lines(lv.take(i + 1)));
        i = i + 1;
    }
    assert(lv.take(log@.len() as int) =~= lv);
}

fn push_task_section(out: &mut String, input: &EvaluatorInput)
    ensures
        final(out)@ == old(out)@ + task_section(
            input.task_title@,
            opt_text(input.task_description),
            str_views(input.task_skills@),
            opt_text(input.verify),
        ),
{
    out.append("## Task Definition\n\n");
    out.append("**Title:** ");
    out.append(input.task_title);
    out.append("\n\n");
    push_when_some(out, input.task_description, "**Description:**\n", "\n\n");
    if input.task_skills.len() > 0 {
        out.append("**Required Skills:**\n");
        push_wrapped(out, input.task_skills, "- ", "\n");
        out.append("\n");
    }
    push_when_some(out, input.verify, "**Verification Criteria:**\n", "\n\n");
    assert(out@ =~= old(out)@ + task_section(
        input.task_title@,
        opt_text(input.task_description),
        str_views(input.task_skills@),
        opt_text(input.verify),
    ));
}

fn push_agent_and_role(out: &mut String, input: &EvaluatorInput)
    requires
        agent_id_cuttable(*input),
    ensures
        final(out)@ == old(out)@ + agent_part(input_agent(*input)) + role_part(input_role(*input)),
{
    if let Some(agent) = input.agent {
        out.append("**Agent:** ");
        out.append(agent.name.as_str());
        out.append(" (");
        out.append(short_hash(agent.id.as_str()));
        out.append(")\n\n");
    }
    let ghost p2 = out@;
    assert(p2 =~= old(out)@ + agent_part(input_agent(*input)));
    if let Some(role) = input.role {
        out.append("**Role:** ");
        out.append(role.name.as_str());
        out.append(" (");
        out.append(role.id.as_str());
        out.append(")\n");
        out.append(role.description.as_str());
        out.append("\n\n");
        out.append("**Desired Outcome:** ");
        out.append(role.desired_outcome.as_str());
        out.append("\n\n");
    } else {
        out.append("*No role was assigned.*\n\n");
    }
    assert(out@ =~= p2 + role_part(input_role(*input)));
}

fn push_motivation(out: &mut String, input: &EvaluatorInput)
    ensures
        final(out)@ == old(out)@ + motivation_part(input_motivation(*input)),
{
    if let Some(motivation) = input.motivation {
        out.append("**Motivation:** ");
        out.append(motivation.name.as_str());
        out.append(" (");
        out.append(motivation.id.as_str());
        out.append(")\n");
        out.append(motivation.description.as_str());
        out.append("\n\n");
        let ghost p = out@;
        if motivation.acceptable_tradeoffs.len() > 0 {
            out.append("**Acceptable Trade-offs:**\n");
            push_wrapped(out, motivation.acceptable_tradeoffs.as_slice(), "- ", "\n");
            out.append("\n");
        }
        let ghost q = out@;
        if motivation.unacceptable_tradeoffs.len() > 0 {
            out.append("**Non-negotiable Constraints:**\n");
            push_wrapped(out, motivation.unacceptable_tradeoffs.as_slice(), "- ", "\n");
            out.append("\n");
        }
        proof {
            assert(str_views(motivation.acceptable_tradeoffs@) == strs(motivation.acceptable_tradeoffs));
            assert(str_views(motivation.unacceptable_tradeoffs@) == strs(motivation.unacceptable_tradeoffs));
        }
    } else {
        out.append("*No motivation was assigned.*\n\n");
    }
    assert(out@ =~= old(out)@ + motivation_part(input_motivation(*input)));
}

fn push_artifacts(out: &mut String, artifacts: &[String])
    ensures
        final(out)@ == old(out)@ + artifacts_section(str_views(artifacts@)),
{
    out.append("## Task Artifacts\n\n");
    if artifacts.len() == 0 {
        out.append("*No artifacts were recorded.*\n\n");
    } else {
        push_wrapped(out, artifacts, "- `", "`\n");
        out.append("\n");
    }
    assert(out@ =~= old(out)@ + artifacts_section(str_views(artifacts@)));
}

fn push_log(out: &mut String, log: &[LogEntry])
    ensures
        final(out)@ == old(out)@ + log_section(log@.map_values(|e: LogEntry| e@)),
{
    out.append("## Task Log\n\n");
    if log.len() == 0 {
        out.append("*No log entries.*\n\n");
    } else {
        push_log_lines(out, log);
        out.append("\n");
    }
    assert(out@ =~= old(out)@ + log_section(log@.map_values(|e: LogEntry| e@)));
}

fn push_timing(out: &mut String, started: Option<&str>, completed: Option<&str>)
    ensures
        final(out)@ == old(out)@ + timing_section(opt_text(started), opt_text(completed)),
{
    if started.is_some() || completed.is_some() {
        out.append("## Timing\n\n");
        push_when_some(out, started, "- Started: ", "\n");
        push_when_some(out, completed, "- Completed: ", "\n");
        out.append("\n");
    }
    assert(out@ =~= old(out)@ + timing_section(opt_text(started), opt_text(completed)));
}

fn push_record_sections(out: &mut String, input: &EvaluatorInput)
    ensures
        final(out)@ == old(out)@ + record_sections(
            str_views(input.artifacts@),
            input.log_entries@.map_values(|e: LogEntry| e@),
            opt_text(input.started_at),
            opt_text(input.completed_at),
        ),
{
    push_artifacts(out, input.artifacts);
    push_log(out, input.log_entries);
    push_timing(out, input.started_at, input.completed_at);
    assert(out@ =~= old(out)@ + record_sections(
        str_views(input.artifacts@),
        input.log_entries@.map_values(|e: LogEntry| e@),
        opt_text(input.started_at),
        opt_text(input.completed_at),
    ));
}

/// The prompt an LLM evaluator receives: instructions, the task, the identity
/// that worked on it, its artifacts, log and timing, and the rubric and
/// required JSON output.
pub fn render_evaluator_prompt(input: &EvaluatorInput) -> (r: String)
    requires
        agent_id_cuttable(*input),
    ensures
        r@ == evaluator_prompt(*input),
{
    let mut out = String::new();
    push_intro(&mut out);
    push_task_section(&mut out, input);
    out.append("## Agent Identity\n\n");
    push_agent_and_role(&mut out, input);
    push_motivation(&mut out, input);
    push_record_sections(&mut out, input);
    push_rubric(&mut out);
    assert(out@ =~= evaluator_prompt(*input));
    out
}

// ---------------------------------------------------------------------------
// Content hashes
// ---------------------------------------------------------------------------

/// The SHA-256 digest of `bytes`.
pub uninterp spec fn sha256(bytes: Seq<u8>) -> Seq<u8>;

/// `sha2::Sha256::digest`: the 32-byte SHA-256 digest of the bytes.
#[verifier::external_body]
fn sha256_digest(bytes: &[u8]) -> (r: Vec<u8>)
    ensures
        r@ == sha256(bytes@),
        r@.len() == 32,
{
    <sha2::Sha256 as sha2::Digest>::digest(bytes).to_vec()
}

/// The lower-case hexadecimal digit for `d` (below 16).
pub open spec fn hex_digit(d: nat) -> char {
    if d < 10 {
        (('0' as nat) + d) as char
    } else {
        (('a' as nat) + d - 10) as char
    }
}

/// Two lower-case hexadecimal digits per byte, as `{:x}` prints a digest.
pub open spec fn hex(bytes: Seq<u8>) -> Seq<char>
    decreases bytes.len(),
{
    if bytes.len() == 0 {
        Seq::empty()
    } else {
        hex(bytes.drop_last()) + seq![hex_digit(bytes.last() as nat / 16), hex_digit(bytes.last() as nat % 16)]
    }
}

fn hex_str(d: u8) -> (r: &'static str)
    requires
        d < 16,
    ensures
        r@ == seq![hex_digit(d as nat)],
{
    proof {
        reveal_strlit("0");
        reveal_strlit("1");
        reveal_strlit("2");
        reveal_strlit("3");
        reveal_strlit("4");
        reveal_strlit("5");
        reveal_strlit("6");
        reveal_strlit("7");
        reveal_strlit("8");
        reveal_strlit("9");
        reveal_strlit("a");
        reveal_strlit("b");
        reveal_strlit("c");
        reveal_strlit("d");
        reveal_strlit("e");
        reveal_strlit("f");
    }
    if d == 0 { "0" }
    else if d == 1 { "1" }
    else if d == 2 { "2" }
    else if d == 3 { "3" }
    else if d == 4 { "4" }
    else if d == 5 { "5" }
    else if d == 6 { "6" }
    else if d == 7 { "7" }
    else if d == 8 { "8" }
    else if d == 9 { "9" }
    else if d == 10 { "a" }
    else if d == 11 { "b" }
    else if d == 12 { "c" }
    else if d == 13 { "d" }
    else if d == 14 { "e" }
    else { "f" }
}

/// The content hash of a canonical text: the lower-case hex SHA-256 of its UTF-8 bytes.
pub fn content_hash(canonical: &str) -> (r: String)
    ensures
        r@ == hex(sha256(canonical.spec_bytes())),
{
    let digest = sha256_digest(canonical.as_bytes());
    let mut out = String::new();
    let mut i: usize = 0;
    while i < digest.len()
        invariant
            i <= digest@.len(),
            out@ == hex(digest@.take(i as int)),
        decreases digest@.len() - i,
    {
        let b = digest[i];
        out.append(hex_str(b / 16));
        out.append(hex_str(b % 16));
        assert(digest@.take(i + 1).drop_last() =~= digest@.take(i as int));
        assert(out@ =~= hex(digest@.take(i + 1)));
        i = i + 1;
    }
    assert(digest@.take(digest@.len() as int) =~= digest@);
    out
}

/// Positions, in order, of the entries of `present` that are false.
pub open spec fn absent_positions(present: Seq<bool>) -> Seq<usize>
    decreases present.len(),
{
    if present.len() == 0 {
        Seq::empty()
    } else {
        let prev = absent_positions(present.drop_last());
        if present.last() {
            prev
        } else {
            prev.push((present.len() - 1) as usize)
        }
    }
}

/// How many entries of `present` are false.
pub open spec fn count_absent(present: Seq<bool>) -> nat
    decreases present.len(),
{
    if present.len() == 0 {
        0
    } else {
        count_absent(present.drop_last()) + if present.last() {
            0nat
        } else {
            1nat
        }
    }
}

proof fn lemma_absent_positions(present: Seq<bool>)
    requires
        present.len() <= usize::MAX,
    ensures
        absent_positions(present).len() == count_absent(present),
        forall|k: int|
            0 <= k < absent_positions(present).len() ==> (#[trigger] absent_positions(present)[k]) < present.len()
                && !present[absent_positions(present)[k] as int],
        forall|i: int|
            0 <= i < present.len() && !present[i] ==> #[trigger] absent_positions(present).contains(i as usize),
    decreases present.len(),
{
    if present.len() > 0 {
        let p = present.drop_last();
        lemma_absent_positions(p);
        let prev = absent_positions(p);
        assert forall|i: int| 0 <= i < present.len() && !present[i] implies #[trigger] absent_positions(
            present,
        ).contains(i as usize) by {
            if i < present.len() - 1 {
                assert(p[i] == present[i]);
                assert(prev.contains(i as usize));
                let m = choose|m: int| 0 <= m < prev.len() && prev[m] == i as usize;
                assert(absent_positions(present)[m] == i as usize);
            } else {
                assert(absent_positions(present).last() == i as usize);
                assert(absent_positions(present)[absent_positions(present).len() - 1] == i as usize);
            }
        }
        assert forall|k: int| 0 <= k < absent_positions(present).len() implies (#[trigger] absent_positions(
            present,
        )[k]) < present.len() && !present[absent_positions(present)[k] as int] by {
            if present.last() {
                assert(absent_positions(present) == prev);
                assert(p[prev[k] as int] == present[prev[k] as int]);
            } else if k < prev.len() {
                assert(absent_positions(present)[k] == prev[k]);
                assert(p[prev[k] as int] == present[prev[k] as int]);
            } else {
                assert(absent_positions(present)[k] == (present.len() - 1) as usize);
            }
        }
    }
}

/// Seeding writes exactly the starters whose files are missing: as many as
/// are missing, no other, and once they are all there, a second seeding
/// writes nothing.
pub proof fn law_seed_writes_missing_once(present: Seq<bool>)
    requires
        present.len() <= usize::MAX,
    ensures
        absent_positions(present).len() == count_absent(present),
        forall|k: int|
            0 <= k < absent_positions(present).len() ==> !present[#[trigger] absent_positions(present)[k] as int],
        absent_positions(
            Seq::new(present.len(), |i: int| present[i] || absent_positions(present).contains(i as usize)),
        ).len() == 0,
{
    lemma_absent_positions(present);
    let after = Seq::new(present.len(), |i: int| present[i] || absent_positions(present).contains(i as usize));
    lemma_absent_positions(after);
    if absent_positions(after).len() > 0 {
        let j = absent_positions(after)[0];
        assert(!after[j as int]);
        assert(!present[j as int]);
    }
}

fn absent(present: &Vec<bool>) -> (r: Vec<usize>)
    ensures
        r@ == absent_positions(present@),
{
    let mut r: Vec<usize> = Vec::new();
    let mut i: usize = 0;
    while i < present.len()
        invariant
            i <= present@.len(),
            r@ == absent_positions(present@.take(i as int)),
        decreases present.len() - i,
    {
        assert(present@.take(i + 1).drop_last() =~= present@.take(i as int));
        if !present[i] {
            r.push(i);
        }
        i = i + 1;
    }
    assert(present@.take(present@.len() as int) =~= present@);
    r
}

/// Which starter roles and motivations to write, given whether each one's
/// file is already present: the positions of those that are not, so that
/// existing files are kept and the counts written are the lengths.
pub fn seed_starters(role_present: &Vec<bool>, motivation_present: &Vec<bool>) -> (r: (Vec<usize>, Vec<usize>))
    ensures
        r.0@ == absent_positions(role_present@),
        r.1@ == absent_positions(motivation_present@),
{
    (absent(role_present), absent(motivation_present))
}

} // verus!
