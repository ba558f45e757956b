//! Markdown pages with YAML frontmatter, one per entity.
use crate::graph::index_map::{entity_map_get_index, entity_map_len};
use crate::graph::node::KnowledgeGraph;
use crate::parser::ast::{
    entity_type_name, Analogy, AnalogyView, Annotation, AnnotationView, Entity, EntityView,
    EvidenceBlock, EvidenceView, RelationshipView, Revelation, RevelationView,
    Synthesis, SynthesisView,
};
use crate::error::VdlError;
use vstd::prelude::*;

verus! {

broadcast use vstd::seq_lib::group_seq_properties;

/// How one character is written inside a YAML double-quoted string.
pub open spec fn yaml_escape_char(c: char) -> Seq<char> {
    if c == '\\' {
        seq!['\\', '\\']
    } else if c == '"' {
        seq!['\\', '"']
    } else if c == '\n' {
        seq!['\\', 'n']
    } else {
        seq![c]
    }
}

pub open spec fn yaml_escape_fn() -> spec_fn(char) -> Seq<char> {
    |c: char| yaml_escape_char(c)
}

/// A text escaped for use inside YAML double quotes.
pub open spec fn yaml_escape(s: Seq<char>) -> Seq<char> {
    s.flat_map(yaml_escape_fn())
}

/// Escapes backslashes, double quotes and newlines for use inside YAML
/// double quotes.
pub fn escape_yaml_string(s: &str) -> (r: String)
    ensures
        r@ == yaml_escape(s@),
{
    let mut r = String::new();
    let ghost f = yaml_escape_fn();
    for c in iter: s.chars()
        invariant
            f == yaml_escape_fn(),
            iter.seq() == s@,
            r@ == iter.seq().take(iter.index() as int).flat_map(f),
    {
        let ghost k = iter.index() as int;
        proof {
            iter.seq().lemma_flat_map_take_append(f, k);
        }
        let ghost before = r@;
        if c == '\\' {
            r.push('\\');
            r.push('\\');
        } else if c == '"' {
            r.push('\\');
            r.push('"');
        } else if c == '\n' {
            r.push('\\');
            r.push('n');
        } else {
            r.push(c);
        }
        assert(r@ =~= before + yaml_escape_char(c));
    }
    r
}


/// The character that stands for `c` in a file name: dots and underscores
/// become dashes.
pub open spec fn filename_char(c: char) -> char {
    if c == '.' || c == '_' {
        '-'
    } else {
        c
    }
}

/// The Markdown file name of an entity id.
pub open spec fn markdown_filename(id: Seq<char>) -> Seq<char> {
    id.map_values(|c: char| filename_char(c)) + ".md"@
}

/// Converts an entity id to a Markdown file name: dots and underscores
/// become dashes, and `.md` is appended.
pub fn entity_id_to_filename(id: &str) -> (r: String)
    ensures
        r@ == markdown_filename(id@),
{
    let mut r = String::new();
    for c in iter: id.chars()
        invariant
            iter.seq() == id@,
            r@ == iter.seq().take(iter.index() as int).map_values(|c: char| filename_char(c)),
    {
        let ghost k = iter.index() as int;
        let ghost before = r@;
        if c == '.' || c == '_' {
            r.push('-');
        } else {
            r.push(c);
        }
        assert(r@ =~= iter.seq().take(k + 1).map_values(|c: char| filename_char(c)));
    }
    assert(id@.take(id@.len() as int) =~= id@);
    r.append(".md");
    r
}

// ---------------------------------------------------------------------------
// Lines of a text
// ---------------------------------------------------------------------------

/// A line without the `'\r'` of a `"\r\n"` ending.
pub open spec fn strip_cr(l: Seq<char>) -> Seq<char> {
    if l.len() > 0 && l.last() == '\r' {
        l.drop_last()
    } else {
        l
    }
}

/// Reading `s` left to right: the lines ended so far, and the characters
/// of the line in progress.
pub open spec fn lines_state(s: Seq<char>) -> (Seq<Seq<char>>, Seq<char>)
    decreases s.len(),
{
    if s.len() == 0 {
        (seq![], seq![])
    } else {
        let (done, cur) = lines_state(s.drop_last());
        if s.last() == '\n' {
            (done.push(strip_cr(cur)), seq![])
        } else {
            (done, cur.push(s.last()))
        }
    }
}

/// The lines of a text: the pieces between `'\n'`s, each without the
/// `'\r'` of a `"\r\n"` ending; a final line break ends the last line and
/// starts no new one.
pub open spec fn text_lines(s: Seq<char>) -> Seq<Seq<char>> {
    let (done, cur) = lines_state(s);
    if cur.len() > 0 {
        done.push(cur)
    } else {
        done
    }
}

pub open spec fn quote_line(l: Seq<char>) -> Seq<char> {
    "> "@ + l + "\n"@
}

pub open spec fn quote_fn() -> spec_fn(Seq<char>) -> Seq<char> {
    |l: Seq<char>| quote_line(l)
}

/// Appends `"> "`, the first `n` characters of `v` and a line break.
fn push_quoted(out: &mut String, v: &Vec<char>, n: usize)
    requires
        n <= v@.len(),
    ensures
        final(out)@ == old(out)@ + quote_line(v@.take(n as int)),
{
    let ghost base = old(out)@;
    out.append("> ");
    let ghost mid = out@;
    let mut i: usize = 0;
    while i < n
        invariant
            n <= v@.len(),
            i <= n,
            out@ == mid + v@.take(i as int),
        decreases n - i,
    {
        out.push(v[i]);
        assert(out@ =~= mid + v@.take(i + 1));
        i = i + 1;
    }
    out.append("\n");
    assert(out@ =~= base + quote_line(v@.take(n as int)));
}

/// Appends each line of `text` as a Markdown quote line.
fn push_quoted_lines(out: &mut String, text: &str)
    ensures
        final(out)@ == old(out)@ + text_lines(text@).flat_map(quote_fn()),
{
    let ghost base = old(out)@;
    let ghost f = quote_fn();
    let mut cur: Vec<char> = Vec::new();
    for c in iter: text.chars()
        invariant
            f == quote_fn(),
            iter.seq() == text@,
            lines_state(iter.seq().take(iter.index() as int)).1 == cur@,
            out@ == base + lines_state(iter.seq().take(iter.index() as int)).0.flat_map(f),
    {
        let ghost k = iter.index() as int;
        let ghost pre = iter.seq().take(k);
        assert(iter.seq().take(k + 1).drop_last() =~= pre);
        let ghost done = lines_state(pre).0;
        if c == '\n' {
            let n = cur.len();
            if n > 0 && cur[n - 1] == '\r' {
                push_quoted(out, &cur, n - 1);
                assert(cur@.take(n - 1) =~= strip_cr(cur@));
            } else {
                push_quoted(out, &cur, n);
                assert(cur@.take(n as int) =~= strip_cr(cur@));
            }
            proof {
                done.lemma_flat_map_push(f, strip_cr(cur@));
            }
            cur = Vec::new();
            assert(cur@ =~= Seq::<char>::empty());
        } else {
            cur.push(c);
        }
    }
    assert(text@.take(text@.len() as int) =~= text@);
    let ghost done = lines_state(text@).0;
    let n = cur.len();
    if n > 0 {
        push_quoted(out, &cur, n);
        assert(cur@.take(n as int) =~= cur@);
        proof {
            done.lemma_flat_map_push(f, cur@);
        }
    }
}

// ---------------------------------------------------------------------------
// The page
// ---------------------------------------------------------------------------

pub open spec fn related_line(r: RelationshipView) -> Seq<char> {
    "  - "@ + r.target_id + "\n"@
}

pub open spec fn related_fn() -> spec_fn(RelationshipView) -> Seq<char> {
    |r: RelationshipView| related_line(r)
}

/// The `related:` list of the frontmatter: empty without relationships.
pub open spec fn related_block(rels: Seq<RelationshipView>) -> Seq<char> {
    if rels.len() == 0 {
        seq![]
    } else {
        "related:\n"@ + rels.flat_map(related_fn())
    }
}

/// The frontmatter line of an annotation: dates are quoted, other values
/// are written as they are.
pub open spec fn annotation_line(a: AnnotationView) -> Seq<char> {
    if a.name == "author"@ {
        "author: "@ + a.value + "\n"@
    } else if a.name == "created"@ {
        "created: \""@ + a.value + "\"\n"@
    } else if a.name == "reviewed"@ {
        "reviewed: \""@ + a.value + "\"\n"@
    } else if a.name == "status"@ {
        "status: "@ + a.value + "\n"@
    } else if a.name == "pillar"@ {
        "pillar: "@ + a.value + "\n"@
    } else {
        a.name + ": "@ + a.value + "\n"@
    }
}

pub open spec fn annotation_fn() -> spec_fn(AnnotationView) -> Seq<char> {
    |a: AnnotationView| annotation_line(a)
}

/// The YAML frontmatter of an entity's page.
pub open spec fn frontmatter(e: EntityView) -> Seq<char> {
    "---\n"@ + "id: "@ + e.id + "\n"@ + "type: "@ + entity_type_name(e.entity_type) + "\n"@
        + "version: \""@ + e.version + "\"\n"@ + "title: \""@ + yaml_escape(e.title) + "\"\n"@
        + "description: \""@ + yaml_escape(e.description) + "\"\n"@ + related_block(e.relationships)
        + e.annotations.flat_map(annotation_fn()) + "---\n\n"@
}

pub open spec fn revelation_md(r: RevelationView) -> Seq<char> {
    "**Source:** "@ + r.source + "\n\n"@ + "**Text:**\n"@ + text_lines(r.text).flat_map(quote_fn())
        + "\n"@
}

pub open spec fn revelation_fn() -> spec_fn(RevelationView) -> Seq<char> {
    |r: RevelationView| revelation_md(r)
}

/// The Revelation subsection: empty without revelations.
pub open spec fn revelations_md(b: EvidenceView) -> Seq<char> {
    if b.revelations.len() == 0 {
        seq![]
    } else {
        "### Revelation\n\n"@ + b.revelations.flat_map(revelation_fn())
    }
}

pub open spec fn bullet(s: Seq<char>) -> Seq<char> {
    "- "@ + s + "\n"@
}

pub open spec fn bullet_fn() -> spec_fn(Seq<char>) -> Seq<char> {
    |s: Seq<char>| bullet(s)
}

pub open spec fn synthesis_md(s: SynthesisView) -> Seq<char> {
    "**Sources:**\n"@ + s.sources.flat_map(bullet_fn()) + "\n"@ + "**Argument:**\n"@ + s.argument
        + "\n\n"@
}

pub open spec fn synthesis_fn() -> spec_fn(SynthesisView) -> Seq<char> {
    |s: SynthesisView| synthesis_md(s)
}

/// The Synthesis subsection: empty without syntheses.
pub open spec fn syntheses_md(b: EvidenceView) -> Seq<char> {
    if b.syntheses.len() == 0 {
        seq![]
    } else {
        "### Synthesis\n\n"@ + b.syntheses.flat_map(synthesis_fn())
    }
}

pub open spec fn analogy_md(a: AnalogyView) -> Seq<char> {
    "**Domain:** "@ + a.domain + "\n\n"@ + "**Mapping:**\n"@ + a.mapping + "\n\n"@
}

pub open spec fn analogy_fn() -> spec_fn(AnalogyView) -> Seq<char> {
    |a: AnalogyView| analogy_md(a)
}

/// The Analogy subsection: empty without analogies.
pub open spec fn analogies_md(b: EvidenceView) -> Seq<char> {
    if b.analogies.len() == 0 {
        seq![]
    } else {
        "### Analogy\n\n"@ + b.analogies.flat_map(analogy_fn())
    }
}

/// The body of an entity's page: an Evidence section when the entity has
/// at least one evidence item.
pub open spec fn evidence_md(ev: Option<EvidenceView>) -> Seq<char> {
    match ev {
        Some(b) => if b.revelations.len() > 0 || b.syntheses.len() > 0 || b.analogies.len() > 0 {
            "## Evidence\n\n"@ + revelations_md(b) + syntheses_md(b) + analogies_md(b)
        } else {
            seq![]
        },
        None => seq![],
    }
}

/// The Markdown page of an entity.
pub open spec fn markdown_page(e: EntityView) -> Seq<char> {
    frontmatter(e) + evidence_md(e.evidence)
}

/// Renders the Revelation subsection of an evidence block.
pub fn render_revelations(output: &mut String, evidence: &EvidenceBlock)
    ensures
        final(output)@ == old(output)@ + revelations_md(evidence@),
{
    if evidence.revelations.len() == 0 {
        assert(old(output)@ + revelations_md(evidence@) =~= old(output)@);
        return;
    }
    let ghost f = revelation_fn();
    let ghost xs = evidence@.revelations;
    output.append("### Revelation\n\n");
    let ghost base = output@;
    let mut i: usize = 0;
    while i < evidence.revelations.len()
        invariant
            f == revelation_fn(),
            xs == evidence@.revelations,
            i <= xs.len(),
            output@ == base + xs.take(i as int).flat_map(f),
        decreases xs.len() - i,
    {
        let r = &evidence.revelations[i];
        let ghost before = output@;
        output.append("**Source:** ");
        output.append(r.source.as_str());
        output.append("\n\n");
        output.append("**Text:**\n");
        push_quoted_lines(output, r.text.as_str());
        output.append("\n");
        proof {
            assert(xs[i as int] == r@);
            assert(output@ =~= before + revelation_md(r@));
            xs.lemma_flat_map_take_append(f, i as int);
        }
        i = i + 1;
    }
    assert(xs.take(xs.len() as int) =~= xs);
}

/// Renders the Synthesis subsection of an evidence block.
pub fn render_syntheses(output: &mut String, evidence: &EvidenceBlock)
    ensures
        final(output)@ == old(output)@ + syntheses_md(evidence@),
{
    if evidence.syntheses.len() == 0 {
        assert(old(output)@ + syntheses_md(evidence@) =~= old(output)@);
        return;
    }
    let ghost f = synthesis_fn();
    let ghost g = bullet_fn();
    let ghost xs = evidence@.syntheses;
    output.append("### Synthesis\n\n");
    let ghost base = output@;
    let mut i: usize = 0;
    while i < evidence.syntheses.len()
        invariant
            f == synthesis_fn(),
            g == bullet_fn(),
            xs == evidence@.syntheses,
            i <= xs.len(),
            output@ == base + xs.take(i as int).flat_map(f),
        decreases xs.len() - i,
    {
        let s = &evidence.syntheses[i];
        let ghost before = output@;
        let ghost srcs = s@.sources;
        output.append("**Sources:**\n");
        let ghost mid = output@;
        let mut k: usize = 0;
        while k < s.sources.len()
            invariant
                g == bullet_fn(),
                srcs == s@.sources,
                k <= srcs.len(),
                output@ == mid + srcs.take(k as int).flat_map(g),
            decreases srcs.len() - k,
        {
            output.append("- ");
            output.append(s.sources[k].as_str());
            output.append("\n");
            proof {
                assert(srcs[k as int] == s.sources@[k as int]@);
                srcs.lemma_flat_map_take_append(g, k as int);
            }
            k = k + 1;
        }
        assert(srcs.take(srcs.len() as int) =~= srcs);
        output.append("\n");
        output.append("**Argument:**\n");
        output.append(s.argument.as_str());
        output.append("\n\n");
        proof {
            assert(xs[i as int] == s@);
            assert(output@ =~= before + synthesis_md(s@));
            xs.lemma_flat_map_take_append(f, i as int);
        }
        i = i + 1;
    }
    assert(xs.take(xs.len() as int) =~= xs);
}

/// Renders the Analogy subsection of an evidence block.
pub fn render_analogies(output: &mut String, evidence: &EvidenceBlock)
    ensures
        final(output)@ == old(output)@ + analogies_md(evidence@),
{
    if evidence.analogies.len() == 0 {
        assert(old(output)@ + analogies_md(evidence@) =~= old(output)@);
        return;
    }
    let ghost f = analogy_fn();
    let ghost xs = evidence@.analogies;
    output.append("### Analogy\n\n");
    let ghost base = output@;
    let mut i: usize = 0;
    while i < evidence.analogies.len()
        invariant
            f == analogy_fn(),
            xs == evidence@.analogies,
            i <= xs.len(),
            output@ == base + xs.take(i as int).flat_map(f),
        decreases xs.len() - i,
    {
        let a = &evidence.analogies[i];
        let ghost before = output@;
        output.append("**Domain:** ");
        output.append(a.domain.as_str());
        output.append("\n\n");
        output.append("**Mapping:**\n");
        output.append(a.mapping.as_str());
        output.append("\n\n");
        proof {
            assert(xs[i as int] == a@);
            assert(output@ =~= before + analogy_md(a@));
            xs.lemma_flat_map_take_append(f, i as int);
        }
        i = i + 1;
    }
    assert(xs.take(xs.len() as int) =~= xs);
}

/// Appends the frontmatter line of one annotation.
fn push_annotation(output: &mut String, a: &Annotation)
    ensures
        final(output)@ == old(output)@ + annotation_line(a@),
{
    let ghost base = output@;
    if a.name == String::from_str("author") {
        output.append("author: ");
        output.append(a.value.as_str());
        output.append("\n");
    } else if a.name == String::from_str("created") {
        output.append("created: \"");
        output.append(a.value.as_str());
        output.append("\"\n");
    } else if a.name == String::from_str("reviewed") {
        output.append("reviewed: \"");
        output.append(a.value.as_str());
        output.append("\"\n");
    } else if a.name == String::from_str("status") {
        output.append("status: ");
        output.append(a.value.as_str());
        output.append("\n");
    } else if a.name == String::from_str("pillar") {
        output.append("pillar: ");
        output.append(a.value.as_str());
        output.append("\n");
    } else {
        output.append(a.name.as_str());
        output.append(": ");
        output.append(a.value.as_str());
        output.append("\n");
    }
    assert(output@ =~= base + annotation_line(a@));
}

/// Appends the frontmatter of an entity's page.
fn push_frontmatter(output: &mut String, entity: &Entity)
    ensures
        final(output)@ == old(output)@ + frontmatter(entity@),
{
    let ghost base = output@;
    let ghost e = entity@;
    output.append("---\n");
    output.append("id: ");
    output.append(entity.id.as_str());
    output.append("\n");
    output.append("type: ");
    output.append(entity.entity_type.as_str());
    output.append("\n");
    output.append("version: \"");
    output.append(entity.version.as_str());
    output.append("\"\n");
    output.append("title: \"");
    let title = escape_yaml_string(entity.title.as_str());
    output.append(title.as_str());
    output.append("\"\n");
    output.append("description: \"");
    let description = escape_yaml_string(entity.description.as_str());
    output.append(description.as_str());
    output.append("\"\n");
    let ghost head = output@;
    if entity.relationships.len() > 0 {
        let ghost f = related_fn();
        let ghost rels = e.relationships;
        output.append("related:\n");
        let ghost mid = output@;
        let mut i: usize = 0;
        while i < entity.relationships.len()
            invariant
                f == related_fn(),
                rels == entity@.relationships,
                i <= rels.len(),
                output@ == mid + rels.take(i as int).flat_map(f),
            decreases rels.len() - i,
        {
            output.append("  - ");
            output.append(entity.relationships[i].target_id.as_str());
            output.append("\n");
            proof {
                assert(rels[i as int] == entity.relationships@[i as int]@);
                rels.lemma_flat_map_take_append(f, i as int);
            }
            i = i + 1;
        }
        assert(rels.take(rels.len() as int) =~= rels);
    }
    assert(output@ =~= head + related_block(e.relationships));
    let ghost g = annotation_fn();
    let ghost anns = e.annotations;
    let ghost mid2 = output@;
    let mut k: usize = 0;
    while k < entity.annotations.len()
        invariant
            g == annotation_fn(),
            anns == entity@.annotations,
            k <= anns.len(),
            output@ == mid2 + anns.take(k as int).flat_map(g),
        decreases anns.len() - k,
    {
        push_annotation(output, &entity.annotations[k]);
        proof {
            assert(anns[k as int] == entity.annotations@[k as int]@);
            anns.lemma_flat_map_take_append(g, k as int);
        }
        k = k + 1;
    }
    assert(anns.take(anns.len() as int) =~= anns);
    output.append("---\n\n");
    assert(output@ =~= base + frontmatter(e));
}

/// The Markdown page of one entity: YAML frontmatter, then an Evidence
/// section when the entity has evidence items.
pub fn generate_entity(entity: &Entity) -> (r: Result<String, VdlError>)
    ensures
        r matches Ok(s) && s@ == markdown_page(entity@),
{
    let mut output = String::new();
    push_frontmatter(&mut output, entity);
    let ghost head = output@;
    match &entity.evidence {
        Some(evidence) => {
            if evidence.revelations.len() > 0 || evidence.syntheses.len() > 0
                || evidence.analogies.len() > 0 {
                output.append("## Evidence\n\n");
                render_revelations(&mut output, evidence);
                render_syntheses(&mut output, evidence);
                render_analogies(&mut output, evidence);
            }
        },
        None => {},
    }
    assert(output@ =~= head + evidence_md(entity@.evidence));
    Ok(output)
}

/// The Markdown files of a graph, one per node in node order: each file
/// name with its page.
pub open spec fn markdown_files_spec(nodes: Seq<(Seq<char>, EntityView)>) -> Seq<(Seq<char>, Seq<char>)> {
    nodes.map_values(
        |n: (Seq<char>, EntityView)| (markdown_filename(n.1.id), markdown_page(n.1)),
    )
}

/// The Markdown files of a graph: for each entity, in node order, its file
/// name and its page.
pub fn markdown_files(graph: &KnowledgeGraph) -> (r: Vec<(String, String)>)
    ensures
        r@.map_values(|p: (String, String)| (p.0@, p.1@)) == markdown_files_spec(graph@.nodes),
{
    let ghost nodes = graph@.nodes;
    let n = entity_map_len(&graph.nodes);
    let mut files: Vec<(String, String)> = Vec::new();
    let mut i: usize = 0;
    while i < n
        invariant
            nodes == graph@.nodes,
            n == nodes.len(),
            i <= n,
            files@.map_values(|p: (String, String)| (p.0@, p.1@)) == markdown_files_spec(nodes.take(i as int)),
        decreases n - i,
    {
        let (_, entity) = entity_map_get_index(&graph.nodes, i).unwrap();
        let name = entity_id_to_filename(entity.id.as_str());
        let page = match generate_entity(entity) {
            Ok(p) => p,
            Err(_) => String::new(),
        };
        let ghost before = files@.map_values(|p: (String, String)| (p.0@, p.1@));
        assert(nodes[i as int].1 == entity@);
        let ghost item = (name@, page@);
        files.push((name, page));
        assert(files@.map_values(|p: (String, String)| (p.0@, p.1@)) =~= before.push(item));
        assert(files@.map_values(|p: (String, String)| (p.0@, p.1@)) =~= markdown_files_spec(nodes.take(i + 1)));
        i = i + 1;
    }
    assert(nodes.take(n as int) =~= nodes);
    files
}

} // verus!
