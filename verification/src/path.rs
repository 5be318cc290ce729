//! File paths as lists of components, together with how they were written.

use vstd::prelude::*;

use crate::fsattr::Platform;

verus! {

/// One component of a path, as the platform splits it. Names are the platform's own bytes, which
/// need not be UTF-8.
#[derive(Debug)]
pub enum Component {
    /// A drive or share, such as `C:`, as it was written.
    Prefix(Vec<u8>),
    /// The separator that makes a path absolute.
    RootDir,
    /// A leading `.`.
    CurDir,
    /// `..`.
    ParentDir,
    Normal(Vec<u8>),
}

/// What a [`Component`] stands for.
pub enum Part {
    Prefix(Seq<u8>),
    RootDir,
    CurDir,
    ParentDir,
    Normal(Seq<u8>),
}

impl View for Component {
    type V = Part;

    open spec fn view(&self) -> Part {
        match self {
            Component::Prefix(b) => Part::Prefix(b@),
            Component::RootDir => Part::RootDir,
            Component::CurDir => Part::CurDir,
            Component::ParentDir => Part::ParentDir,
            Component::Normal(b) => Part::Normal(b@),
        }
    }
}

/// What each component of a list stands for.
pub open spec fn parts_of(components: Seq<Component>) -> Seq<Part> {
    components.map_values(|c: Component| c@)
}

/// One component and the bytes that stand before it: what separates it from the component before,
/// or makes the path absolute.
#[derive(Debug)]
pub struct Piece {
    pub gap: Vec<u8>,
    pub component: Component,
}

/// What a [`Piece`] stands for.
pub struct WrittenPart {
    pub gap: Seq<u8>,
    pub part: Part,
}

impl View for Piece {
    type V = WrittenPart;

    open spec fn view(&self) -> WrittenPart {
        WrittenPart { gap: self.gap@, part: self.component@ }
    }
}

/// What each piece of a list stands for.
pub open spec fn pieces_of(pieces: Seq<Piece>) -> Seq<WrittenPart> {
    pieces.map_values(|p: Piece| p@)
}

/// The components alone.
pub open spec fn parts_in(pieces: Seq<WrittenPart>) -> Seq<Part> {
    pieces.map_values(|p: WrittenPart| p.part)
}

/// What a [`PathBuf`] stands for: its components as they were written, and what stands after the
/// last of them.
pub struct Written {
    pub pieces: Seq<WrittenPart>,
    pub after: Seq<u8>,
    pub platform: Platform,
}

/// The bytes of a component. Those of a root stand in its gap, as a root may go without saying.
pub open spec fn own_text(part: Part) -> Seq<u8> {
    match part {
        Part::Prefix(b) => b,
        Part::RootDir => Seq::empty(),
        Part::CurDir => seq![46u8],
        Part::ParentDir => seq![46u8, 46u8],
        Part::Normal(b) => b,
    }
}

/// The bytes of some pieces.
pub open spec fn pieces_text(pieces: Seq<WrittenPart>) -> Seq<u8>
    decreases pieces.len(),
{
    if pieces.len() == 0 {
        Seq::empty()
    } else {
        pieces_text(pieces.drop_last()) + pieces.last().gap + own_text(pieces.last().part)
    }
}

impl Written {
    /// The components.
    pub open spec fn parts(self) -> Seq<Part> {
        parts_in(self.pieces)
    }

    /// The path as it was written.
    pub open spec fn text(self) -> Seq<u8> {
        pieces_text(self.pieces) + self.after
    }
}

/// The separator that the platform writes.
pub open spec fn main_separator(platform: Platform) -> u8 {
    match platform {
        Platform::Windows => 92,
        Platform::Other => 47,
    }
}

pub open spec fn is_separator(platform: Platform, b: u8) -> bool {
    b == 47 || (platform is Windows && b == 92)
}

/// A verbatim prefix: one that begins with `\\?\`.
pub open spec fn verbatim_text(b: Seq<u8>) -> bool {
    b.len() >= 4 && b[0] == 92 && b[1] == 92 && b[2] == 63 && b[3] == 92
}

/// A path with a verbatim prefix.
pub open spec fn is_verbatim(p: Seq<Part>) -> bool {
    p.len() > 0 && p[0] is Prefix && verbatim_text(p[0]->Prefix_0)
}

/// An ASCII letter in upper case; any other byte as it is.
pub open spec fn upper(b: u8) -> u8 {
    if 97 <= b <= 122 {
        (b - 32) as u8
    } else {
        b
    }
}

/// A backslash as a slash; any other byte as it is.
pub open spec fn slashed(b: u8) -> u8 {
    if b == 92 {
        47
    } else {
        b
    }
}

/// What tells prefixes apart. The case of a drive's letter does not, and neither does the kind of
/// slash, except in a verbatim prefix.
pub open spec fn folded(b: Seq<u8>) -> Seq<u8> {
    if verbatim_text(b) {
        if b.len() == 6 && b[5] == 58 {
            b.update(4, upper(b[4]))
        } else {
            b
        }
    } else if b.len() == 2 && b[1] == 58 {
        seq![upper(b[0]), 58u8]
    } else {
        b.map_values(|x: u8| slashed(x))
    }
}

/// What tells components apart.
pub open spec fn part_key(part: Part) -> Part {
    match part {
        Part::Prefix(b) => Part::Prefix(folded(b)),
        _ => part,
    }
}

/// What tells paths apart: two paths with the same key are the same path.
pub open spec fn path_key(p: Seq<Part>) -> Seq<Part> {
    p.map_values(|part: Part| part_key(part))
}

/// `base` is one of the leading parts of `p`.
pub open spec fn starts_with(p: Written, base: Written) -> bool {
    path_key(base.parts()).is_prefix_of(path_key(p.parts()))
}

/// A drive such as `C:`, behind which a path goes on without a separator.
pub open spec fn is_disk(part: Part) -> bool {
    part is Prefix && part->Prefix_0.len() == 2 && part->Prefix_0[1] == 58
}

/// The drive that a path starts with, if it names one.
pub open spec fn drive(p: Seq<Part>) -> Seq<Part> {
    if p.len() > 0 && p[0] is Prefix {
        p.take(1)
    } else {
        Seq::empty()
    }
}

/// `base`, which has a verbatim prefix, with the parts of `rel` resolved one after the other: a
/// root leads back to the prefix, `.` adds nothing, and `..` takes the last name away.
pub open spec fn resolved(base: Seq<Part>, rel: Seq<Part>) -> Seq<Part>
    decreases rel.len(),
{
    if rel.len() == 0 {
        base
    } else {
        let p = resolved(base, rel.drop_last());
        match rel.last() {
            Part::RootDir => p.take(1).push(Part::RootDir),
            Part::CurDir => p,
            Part::ParentDir => if p.len() > 0 && p.last() is Normal {
                p.drop_last()
            } else {
                p
            },
            _ => p.push(rel.last()),
        }
    }
}

/// What stands behind a verbatim prefix stands behind its root.
pub open spec fn rooted(p: Seq<Part>) -> Seq<Part> {
    if p.len() > 1 && !(p[1] is RootDir) {
        p.take(1).push(Part::RootDir) + p.skip(1)
    } else {
        p
    }
}

/// The bytes before the `i`th of some components, where they are written afresh.
pub open spec fn plain_gap(parts: Seq<Part>, i: int, platform: Platform) -> Seq<u8> {
    let separated = parts[i] is RootDir || (i > 0 && !(parts[i - 1] is RootDir) && !is_disk(
        parts[i - 1],
    ));
    if separated {
        seq![main_separator(platform)]
    } else {
        Seq::empty()
    }
}

/// Components that are written afresh.
pub open spec fn plain(parts: Seq<Part>, platform: Platform) -> Written {
    Written {
        pieces: Seq::new(
            parts.len(),
            |i: int| WrittenPart { gap: plain_gap(parts, i, platform), part: parts[i] },
        ),
        after: Seq::empty(),
        platform,
    }
}

/// Whether a separator is due before a name can follow.
pub open spec fn needs_separator(a: Written) -> bool {
    &&& a.text().len() > 0
    &&& !is_separator(a.platform, a.text().last())
    &&& !(a.pieces.len() == 1 && is_disk(a.pieces[0].part) && a.after.len() == 0)
}

/// Whether that separator is the root of a verbatim prefix that stood alone.
pub open spec fn opens_root(a: Written) -> bool {
    needs_separator(a) && a.pieces.len() == 1 && is_verbatim(a.parts()) && a.after.len() == 0
}

/// The path with the separator, if one is due. It becomes the root where the path ends in one that
/// went without saying.
pub open spec fn opened(a: Written) -> Written {
    let separator = seq![main_separator(a.platform)];
    if !needs_separator(a) {
        a
    } else if opens_root(a) {
        Written {
            pieces: a.pieces.push(WrittenPart { gap: separator, part: Part::RootDir }),
            ..a
        }
    } else if a.after.len() == 0 && a.pieces.last().part is RootDir && a.pieces.last().gap.len()
        == 0 {
        Written {
            pieces: a.pieces.drop_last().push(WrittenPart { gap: separator, part: Part::RootDir }),
            ..a
        }
    } else {
        Written { after: a.after + separator, ..a }
    }
}

/// Pieces, then some bytes, then more pieces and what stands after them.
pub open spec fn behind(
    front: Seq<WrittenPart>,
    between: Seq<u8>,
    rest: Seq<WrittenPart>,
    after: Seq<u8>,
    platform: Platform,
) -> Written {
    if rest.len() == 0 {
        Written { pieces: front, after: between + after, platform }
    } else {
        Written {
            pieces: front + rest.update(
                0,
                WrittenPart { gap: between + rest[0].gap, part: rest[0].part },
            ),
            after,
            platform,
        }
    }
}

/// `rel` as seen from `base`. A path with a drive replaces `base`; behind a verbatim prefix `rel`
/// is resolved, and the result written afresh; a path with a root keeps at most the drive of
/// `base`; any other is written behind `base`, where a leading `.` is no component any more.
pub open spec fn joined(base: Written, rel: Written) -> Written {
    if rel.pieces.len() == 0 {
        opened(base)
    } else if rel.pieces[0].part is Prefix {
        Written { platform: base.platform, ..rel }
    } else if is_verbatim(base.parts()) {
        plain(rooted(resolved(base.parts(), rel.parts())), base.platform)
    } else if rel.pieces[0].part is RootDir {
        Written {
            pieces: base.pieces.take(drive(base.parts()).len() as int) + rel.pieces,
            after: rel.after,
            platform: base.platform,
        }
    } else if rel.pieces[0].part is CurDir && base.pieces.len() > drive(base.parts()).len() {
        behind(
            opened(base).pieces,
            opened(base).after + rel.pieces[0].gap + seq![46u8],
            rel.pieces.skip(1),
            rel.after,
            base.platform,
        )
    } else {
        behind(opened(base).pieces, opened(base).after, rel.pieces, rel.after, base.platform)
    }
}

/// One component on its own.
pub open spec fn lone(part: Part, platform: Platform) -> Written {
    plain(seq![part], platform)
}

/// The path that results from joining the given components one after the other.
pub open spec fn collected(parts: Seq<Part>, platform: Platform) -> Written
    decreases parts.len(),
{
    if parts.len() == 0 {
        Written { pieces: Seq::empty(), after: Seq::empty(), platform }
    } else {
        joined(collected(parts.drop_last(), platform), lone(parts.last(), platform))
    }
}

/// A drive stands only first, and a root only first or behind a drive.
pub open spec fn is_led_right(p: Seq<Part>) -> bool {
    &&& forall|i: int|
        0 <= i < p.len() ==> match #[trigger] p[i] {
            Part::Prefix(_) => i == 0,
            Part::RootDir => i == drive(p).len(),
            _ => true,
        }
    &&& is_verbatim(p) && p.len() > 1 ==> p[1] is RootDir
}

/// What a path is split into: a drive stands only first, a root or a `.` only first or behind a
/// drive. Behind a verbatim prefix stands a root, and a `.` may stand anywhere.
pub open spec fn in_normal_form(p: Seq<Part>) -> bool {
    &&& is_led_right(p)
    &&& forall|i: int|
        0 <= i < p.len() && (#[trigger] p[i]) is CurDir ==> i == drive(p).len() || is_verbatim(p)
}

/// Neither `.` nor `..` stands in the path.
pub open spec fn is_free_of_dots(p: Seq<Part>) -> bool {
    forall|i: int|
        0 <= i < p.len() ==> !((#[trigger] p[i]) is CurDir) && !(p[i] is ParentDir)
}

/// Joining `rel` to `base` puts its components behind those of `base` as they are.
pub open spec fn is_appended(base: Written, rel: Written) -> bool {
    if rel.pieces.len() == 0 {
        !opens_root(base)
    } else {
        ||| base.pieces.len() == 0
        ||| {
            &&& is_verbatim(base.parts()) ==> is_free_of_dots(rel.parts()) && (base.pieces.len() > 1
                || rel.pieces[0].part is RootDir)
            &&& match rel.pieces[0].part {
                Part::Prefix(_) => false,
                Part::RootDir | Part::CurDir => base.pieces.len() == drive(base.parts()).len(),
                _ => true,
            }
        }
    }
}

/// Pieces that are read without what stood before them, and the bytes of what is no component any
/// more at their end. A `.` is one only first, or behind a verbatim prefix.
pub open spec fn settled(pieces: Seq<WrittenPart>) -> (Seq<WrittenPart>, Seq<u8>)
    decreases pieces.len(),
{
    if pieces.len() == 0 {
        (Seq::empty(), Seq::empty())
    } else {
        let (p, between) = settled(pieces.drop_last());
        let last = pieces.last();
        if last.part is CurDir && p.len() > drive(parts_in(p)).len() && !is_verbatim(parts_in(p)) {
            (p, between + last.gap + seq![46u8])
        } else {
            (p.push(WrittenPart { gap: between + last.gap, part: last.part }), Seq::empty())
        }
    }
}

/// The pieces of `p` from the `n`th on, without what separates them from those before.
pub open spec fn tail_pieces(p: Written, n: int) -> Seq<WrittenPart> {
    let rest = p.pieces.skip(n);
    if n > 0 && rest.len() > 0 && !(rest[0].part is RootDir) {
        rest.update(0, WrittenPart { gap: Seq::empty(), part: rest[0].part })
    } else {
        rest
    }
}

/// What is left of `p` below `base`, up to its last component.
pub open spec fn stripped(p: Written, base: Written) -> Written {
    Written {
        pieces: settled(tail_pieces(p, base.pieces.len() as int)).0,
        after: Seq::empty(),
        platform: p.platform,
    }
}

/// The path without its last component, unless it ends in a root or a drive or is empty.
pub open spec fn parent_of(p: Written) -> Option<Written> {
    if p.pieces.len() > 0 && !(p.pieces.last().part is Prefix) && !(
    p.pieces.last().part is RootDir) {
        Some(
            Written { pieces: p.pieces.drop_last(), after: Seq::empty(), platform: p.platform },
        )
    } else {
        None
    }
}

/// Text for bytes that may not be UTF-8: what `String::from_utf8_lossy` makes of them.
pub uninterp spec fn lossy_utf8(bytes: Seq<u8>) -> Seq<char>;

/// Bytes for display: the characters that they encode where they are UTF-8.
pub open spec fn bytes_text(b: Seq<u8>) -> Seq<char> {
    if vstd::utf8::valid_utf8(b) {
        vstd::utf8::decode_utf8(b)
    } else {
        lossy_utf8(b)
    }
}

/// Bytes with each encoded surrogate replaced by the encoded replacement character.
pub open spec fn without_surrogates(b: Seq<u8>) -> Seq<u8>
    decreases b.len(),
{
    if b.len() == 0 {
        b
    } else if b.len() >= 3 && b[0] == 0xed && b[1] >= 0xa0 {
        seq![0xefu8, 0xbfu8, 0xbdu8] + without_surrogates(b.skip(3))
    } else {
        seq![b[0]] + without_surrogates(b.skip(1))
    }
}

/// A path for display, as it was written. A Windows name may hold unpaired surrogates.
pub open spec fn displayed(p: Written) -> Seq<char> {
    match p.platform {
        Platform::Windows => bytes_text(without_surrogates(p.text())),
        Platform::Other => bytes_text(p.text()),
    }
}

/// Calls `String::from_utf8_lossy`. Trusted: the text is a function of the bytes, and bytes that
/// are valid UTF-8 come out as the characters that they encode.
#[verifier::external_body]
fn text_from_bytes(bytes: &Vec<u8>) -> (r: String)
    ensures
        r@ == lossy_utf8(bytes@),
        vstd::utf8::valid_utf8(bytes@) ==> r@ == vstd::utf8::decode_utf8(bytes@),
{
    String::from_utf8_lossy(bytes).into_owned()
}

/// Compares two byte strings.
fn same_bytes(a: &Vec<u8>, b: &Vec<u8>) -> (r: bool)
    ensures
        r == (a@ == b@),
{
    if a.len() != b.len() {
        return false;
    }
    let mut i: usize = 0;
    while i < a.len()
        invariant
            i <= a.len(),
            a.len() == b.len(),
            a@.take(i as int) == b@.take(i as int),
        decreases a.len() - i,
    {
        if a[i] != b[i] {
            return false;
        }
        i = i + 1;
        assert(a@.take(i as int) =~= a@.take(i - 1).push(a@[i - 1]));
        assert(b@.take(i as int) =~= b@.take(i - 1).push(b@[i - 1]));
    }
    assert(a@.take(a.len() as int) =~= a@);
    assert(b@.take(b.len() as int) =~= b@);
    true
}

/// Copies a byte string.
fn copy_bytes(b: &Vec<u8>) -> (r: Vec<u8>)
    ensures
        r@ == b@,
{
    let r = b.clone();
    assert(r@ =~= b@);
    r
}

impl Clone for Component {
    fn clone(&self) -> (r: Self)
        ensures
            r@ == self@,
    {
        match self {
            Component::Prefix(b) => Component::Prefix(copy_bytes(b)),
            Component::RootDir => Component::RootDir,
            Component::CurDir => Component::CurDir,
            Component::ParentDir => Component::ParentDir,
            Component::Normal(b) => Component::Normal(copy_bytes(b)),
        }
    }
}

/// What tells a prefix from others.
fn fold(b: &Vec<u8>) -> (r: Vec<u8>)
    ensures
        r@ == folded(b@),
{
    let verbatim = is_verbatim_text(b);
    let mut out: Vec<u8> = Vec::new();
    let mut i: usize = 0;
    while i < b.len()
        invariant
            i <= b.len(),
            out@.len() == i,
            verbatim == verbatim_text(b@),
            forall|j: int|
                0 <= j < i ==> #[trigger] out@[j] == if verbatim {
                    b@[j]
                } else {
                    slashed(b@[j])
                },
        decreases b.len() - i,
    {
        let x: u8 = b[i];
        out.push(if x == 92 && !verbatim { 47 } else { x });
        i = i + 1;
    }
    if verbatim {
        if b.len() == 6 && b[5] == 58 {
            out.set(4, to_upper(b[4]));
        }
    } else if b.len() == 2 && b[1] == 58 {
        out.set(0, to_upper(b[0]));
    }
    assert(out@ =~= folded(b@));
    out
}

fn to_upper(b: u8) -> (r: u8)
    ensures
        r == upper(b),
{
    if 97 <= b && b <= 122 {
        b - 32
    } else {
        b
    }
}

fn is_verbatim_text(b: &Vec<u8>) -> (r: bool)
    ensures
        r == verbatim_text(b@),
{
    b.len() >= 4 && b[0] == 92 && b[1] == 92 && b[2] == 63 && b[3] == 92
}

impl Component {
    /// Whether two components stand for the same.
    pub fn same(&self, other: &Component) -> (r: bool)
        ensures
            r == (part_key(self@) == part_key(other@)),
    {
        match (self, other) {
            (Component::Prefix(a), Component::Prefix(b)) => same_bytes(&fold(a), &fold(b)),
            (Component::RootDir, Component::RootDir) => true,
            (Component::CurDir, Component::CurDir) => true,
            (Component::ParentDir, Component::ParentDir) => true,
            (Component::Normal(a), Component::Normal(b)) => same_bytes(a, b),
            _ => false,
        }
    }

    /// The component in the form that tells it from others.
    pub(crate) fn key(&self) -> (r: Component)
        ensures
            r@ == part_key(self@),
    {
        match self {
            Component::Prefix(b) => Component::Prefix(fold(b)),
            _ => self.clone(),
        }
    }
}

impl PartialEq for Component {
    fn eq(&self, other: &Self) -> (r: bool) {
        self.same(other)
    }
}

impl vstd::std_specs::cmp::PartialEqSpecImpl for Component {
    open spec fn obeys_eq_spec() -> bool {
        true
    }

    open spec fn eq_spec(&self, other: &Self) -> bool {
        part_key(self@) == part_key(other@)
    }
}

impl Eq for Component {

}

impl Clone for Piece {
    fn clone(&self) -> (r: Self)
        ensures
            r@ == self@,
    {
        Piece { gap: copy_bytes(&self.gap), component: self.component.clone() }
    }
}

/// Copies the pieces from `from` up to `to`.
fn copy_range(v: &Vec<Piece>, from: usize, to: usize) -> (r: Vec<Piece>)
    requires
        from <= to <= v.len(),
    ensures
        pieces_of(r@) == pieces_of(v@).subrange(from as int, to as int),
{
    let mut out: Vec<Piece> = Vec::new();
    append_range(&mut out, v, from, to);
    assert(pieces_of(out@) =~= pieces_of(v@).subrange(from as int, to as int));
    out
}

/// Appends copies of the pieces from `from` up to `to`.
fn append_range(out: &mut Vec<Piece>, v: &Vec<Piece>, from: usize, to: usize)
    requires
        from <= to <= v.len(),
    ensures
        pieces_of(final(out)@) == pieces_of(old(out)@) + pieces_of(v@).subrange(
            from as int,
            to as int,
        ),
{
    let mut i: usize = from;
    assert(pieces_of(out@) =~= pieces_of(old(out)@) + pieces_of(v@).subrange(
        from as int,
        i as int,
    ));
    while i < to
        invariant
            from <= i <= to <= v.len(),
            pieces_of(out@) == pieces_of(old(out)@) + pieces_of(v@).subrange(from as int, i as int),
        decreases to - i,
    {
        let ghost before = out@;
        let next = v[i].clone();
        out.push(next);
        i = i + 1;
        assert(pieces_of(out@) =~= pieces_of(before).push(v@[i - 1]@));
        assert(pieces_of(out@) =~= pieces_of(old(out)@) + pieces_of(v@).subrange(
            from as int,
            i as int,
        ));
    }
}

/// Appends bytes.
fn append_bytes(out: &mut Vec<u8>, b: &Vec<u8>)
    ensures
        final(out)@ == old(out)@ + b@,
{
    let mut i: usize = 0;
    assert(out@ =~= old(out)@ + b@.take(0));
    while i < b.len()
        invariant
            i <= b.len(),
            out@ == old(out)@ + b@.take(i as int),
        decreases b.len() - i,
    {
        out.push(b[i]);
        i = i + 1;
        assert(out@ =~= old(out)@ + b@.take(i as int));
    }
    assert(b@.take(b.len() as int) =~= b@);
}

/// The components of a joined path, where `rel` is not empty.
spec fn joined_parts(base: Seq<Part>, rel: Seq<Part>) -> Seq<Part> {
    if rel[0] is Prefix {
        rel
    } else if is_verbatim(base) {
        rooted(resolved(base, rel))
    } else if rel[0] is RootDir {
        drive(base) + rel
    } else if rel[0] is CurDir && base.len() > drive(base).len() {
        base + rel.skip(1)
    } else {
        base + rel
    }
}

proof fn lemma_opened_parts(a: Written)
    ensures
        opened(a).parts() == if opens_root(a) {
            a.parts().push(Part::RootDir)
        } else {
            a.parts()
        },
{
    assert(opens_root(a) ==> opened(a).parts() =~= a.parts().push(Part::RootDir));
    assert(!opens_root(a) ==> opened(a).parts() =~= a.parts());
}

proof fn lemma_behind_parts(
    front: Seq<WrittenPart>,
    between: Seq<u8>,
    rest: Seq<WrittenPart>,
    after: Seq<u8>,
    platform: Platform,
)
    ensures
        behind(front, between, rest, after, platform).parts() == parts_in(front) + parts_in(rest),
{
    assert(behind(front, between, rest, after, platform).parts() =~= parts_in(front) + parts_in(
        rest,
    ));
}

proof fn lemma_joined_parts(base: Written, rel: Written)
    ensures
        rel.pieces.len() == 0 ==> joined(base, rel).parts() == if opens_root(base) {
            base.parts().push(Part::RootDir)
        } else {
            base.parts()
        },
        rel.pieces.len() > 0 ==> joined(base, rel).parts() == joined_parts(
            base.parts(),
            rel.parts(),
        ),
{
    lemma_opened_parts(base);
    let p = joined(base, rel);
    if rel.pieces.len() > 0 {
        let o = opened(base);
        let first = rel.pieces[0];
        assert(rel.parts()[0] == first.part);
        assert(base.parts().len() == base.pieces.len());
        if first.part is Prefix {
        } else if is_verbatim(base.parts()) {
            assert(p.parts() =~= rooted(resolved(base.parts(), rel.parts())));
        } else if first.part is RootDir {
            assert(p.parts() =~= drive(base.parts()) + rel.parts());
        } else {
            lemma_behind_parts(o.pieces, o.after, rel.pieces, rel.after, base.platform);
            lemma_behind_parts(
                o.pieces,
                o.after + first.gap + seq![46u8],
                rel.pieces.skip(1),
                rel.after,
                base.platform,
            );
            assert(parts_in(rel.pieces.skip(1)) =~= rel.parts().skip(1));
        }
    }
}

/// Resolving keeps the prefix, and puts drives and roots where they belong.
proof fn lemma_resolved(base: Seq<Part>, rel: Seq<Part>)
    requires
        in_normal_form(base),
        is_verbatim(base),
        forall|i: int| 0 <= i < rel.len() ==> !((#[trigger] rel[i]) is Prefix),
    ensures
        ({
            let p = resolved(base, rel);
            &&& p.len() > 0
            &&& p[0] == base[0]
            &&& forall|i: int|
                0 <= i < p.len() ==> match #[trigger] p[i] {
                    Part::Prefix(_) => i == 0,
                    Part::RootDir => i == 1,
                    _ => true,
                }
        }),
    decreases rel.len(),
{
    if rel.len() > 0 {
        let front = rel.drop_last();
        assert forall|i: int| 0 <= i < front.len() implies !((#[trigger] front[i]) is Prefix) by {
            assert(front[i] == rel[i]);
        }
        lemma_resolved(base, front);
        let p = resolved(base, front);
        let q = resolved(base, rel);
        assert(rel[rel.len() - 1] == rel.last());
        assert forall|i: int| 0 <= i < q.len() implies match #[trigger] q[i] {
            Part::Prefix(_) => i == 0,
            Part::RootDir => i == 1,
            _ => true,
        } by {
            assert(i < p.len() && q[i] == p[i] || i == q.len() - 1);
        }
    }
}

/// Behind its root, what was resolved is in form.
proof fn lemma_rooted_form(p: Seq<Part>)
    requires
        is_verbatim(p),
        forall|i: int|
            0 <= i < p.len() ==> match #[trigger] p[i] {
                Part::Prefix(_) => i == 0,
                Part::RootDir => i == 1,
                _ => true,
            },
    ensures
        in_normal_form(rooted(p)),
{
    let q = rooted(p);
    if p.len() > 1 && !(p[1] is RootDir) {
        assert(q[0] == p[0] && q[1] is RootDir);
        assert forall|i: int| 2 <= i < q.len() implies q[i] == p[i - 1] && !(p[i - 1] is Prefix)
            && !(p[i - 1] is RootDir) by {}
    }
    assert(drive(q).len() == 1);
    assert forall|i: int| 0 <= i < q.len() implies match #[trigger] q[i] {
        Part::Prefix(_) => i == 0,
        Part::RootDir => i == drive(q).len(),
        _ => true,
    } by {
        if i >= 2 && q.len() > p.len() {
            assert(q[i] == p[i - 1]);
        }
    }
}

/// Joining keeps both paths' form.
proof fn lemma_joined_form(base: Written, rel: Written)
    requires
        in_normal_form(base.parts()),
        in_normal_form(rel.parts()),
    ensures
        in_normal_form(joined(base, rel).parts()),
{
    lemma_joined_parts(base, rel);
    let b = base.parts();
    let r = rel.parts();
    let p = joined(base, rel).parts();
    if r.len() == 0 {
        if opens_root(base) {
            assert forall|i: int| 0 <= i < p.len() implies match #[trigger] p[i] {
                Part::Prefix(_) => i == 0,
                Part::RootDir => i == drive(p).len(),
                _ => true,
            } by {
                if i < b.len() {
                    assert(p[i] == b[i]);
                }
            }
        }
    } else if !(r[0] is Prefix) {
        if is_verbatim(b) {
            lemma_resolved(b, r);
            lemma_rooted_form(resolved(b, r));
        } else {
            let cut = p.len() - (if r[0] is CurDir && b.len() > drive(b).len() {
                r.len() - 1
            } else {
                r.len() as int
            });
            assert forall|i: int| 0 <= i < p.len() implies p[i] == if i < cut {
                b[i]
            } else {
                r[i - cut + (r.len() - (p.len() - cut))]
            } by {}
            assert(drive(p).len() == drive(b).len() && !is_verbatim(p));
            assert forall|i: int| 0 <= i < p.len() implies match #[trigger] p[i] {
                Part::Prefix(_) => i == 0,
                Part::RootDir => i == drive(p).len(),
                Part::CurDir => i == drive(p).len(),
                _ => true,
            } by {}
        }
    }
}

/// Without `.` and `..` there is nothing to resolve.
proof fn lemma_resolved_appends(base: Seq<Part>, rel: Seq<Part>)
    requires
        is_verbatim(base),
        is_led_right(rel),
        is_free_of_dots(rel),
        rel.len() > 0 ==> !(rel[0] is Prefix),
        rel.len() > 0 && rel[0] is RootDir ==> base.len() == 1,
    ensures
        resolved(base, rel) == base + rel,
    decreases rel.len(),
{
    if rel.len() > 0 {
        let front = rel.drop_last();
        assert(forall|i: int| 0 <= i < front.len() ==> front[i] == rel[i]);
        assert(front.len() > 0 ==> drive(front).len() == drive(rel).len());
        assert(is_led_right(front));
        assert(is_free_of_dots(front));
        lemma_resolved_appends(base, front);
        assert(rel[rel.len() - 1] == rel.last());
        assert((base + front).push(rel.last()) =~= base + rel);
        if rel.last() is RootDir {
            assert(base.take(1).push(Part::RootDir) =~= base + rel);
        }
    } else {
        assert(base + rel =~= base);
    }
}

/// A path that [`is_appended`] stands behind the base as it is.
proof fn lemma_appended(base: Written, rel: Written)
    requires
        in_normal_form(base.parts()),
        in_normal_form(rel.parts()),
        is_appended(base, rel),
    ensures
        joined(base, rel).parts() == base.parts() + rel.parts(),
{
    lemma_joined_parts(base, rel);
    let b = base.parts();
    let r = rel.parts();
    assert(b.len() == base.pieces.len() && r.len() == rel.pieces.len());
    if r.len() == 0 {
        assert(b + r =~= b);
    } else {
        assert(r[0] == rel.pieces[0].part);
        if b.len() == 0 {
            assert(b + r =~= r);
            assert(drive(b) =~= b);
        } else if is_verbatim(b) {
            lemma_resolved_appends(b, r);
            assert((b + r)[1] is RootDir);
        } else if r[0] is RootDir {
            assert(drive(b) =~= b);
        }
    }
}

/// Only verbatim prefixes are the same as verbatim prefixes.
proof fn lemma_same_prefixes(a: Seq<u8>, b: Seq<u8>)
    requires
        folded(a) == folded(b),
    ensures
        verbatim_text(a) == verbatim_text(b),
{
    assert(verbatim_text(a) ==> folded(a)[0] == 92);
    assert(verbatim_text(b) ==> folded(b)[0] == 92);
    assert(folded(a).len() == a.len() && folded(b).len() == b.len());
}

/// The leading parts of a path end where its drive does, or later.
proof fn lemma_same_drives(base: Seq<Part>, p: Seq<Part>)
    requires
        base.len() > 0,
        path_key(base).is_prefix_of(path_key(p)),
    ensures
        p.len() >= base.len(),
        drive(base).len() == drive(p).len(),
        is_verbatim(base) == is_verbatim(p),
{
    assert(path_key(base)[0] == part_key(base[0]) && path_key(p)[0] == part_key(p[0]));
    assert(path_key(base)[0] == path_key(p)[0]);
    if base[0] is Prefix {
        lemma_same_prefixes(base[0]->Prefix_0, p[0]->Prefix_0);
    }
}

/// Settling keeps what is in form, and puts the rest in form.
proof fn lemma_settled(pieces: Seq<WrittenPart>)
    requires
        is_led_right(parts_in(pieces)),
    ensures
        in_normal_form(parts_in(settled(pieces).0)),
        in_normal_form(parts_in(pieces)) ==> parts_in(settled(pieces).0) == parts_in(pieces),
        pieces.len() > 0 ==> settled(pieces).0.len() > 0 && settled(pieces).0[0].part
            == pieces[0].part,
        settled(pieces).0.len() <= pieces.len(),
    decreases pieces.len(),
{
    let s = parts_in(pieces);
    let q = parts_in(settled(pieces).0);
    if pieces.len() > 0 {
        let front = pieces.drop_last();
        let f = parts_in(front);
        assert(forall|i: int| 0 <= i < f.len() ==> f[i] == s[i]);
        assert(f.len() > 0 ==> drive(f).len() == drive(s).len() && is_verbatim(f) == is_verbatim(
            s,
        ));
        assert(is_led_right(f));
        lemma_settled(front);
        let p = parts_in(settled(front).0);
        let last = pieces.last().part;
        assert(s[s.len() - 1] == last);
        assert(p.len() > 0 ==> p[0] == f[0]);
        assert(drive(p).len() == drive(f).len() && is_verbatim(p) == is_verbatim(f));
        assert(q == p || q =~= p.push(last));
        if q != p {
            assert(drive(q).len() == drive(s).len() && is_verbatim(q) == is_verbatim(s));
            assert(last is RootDir ==> p.len() == drive(q).len());
            assert(is_verbatim(q) && q.len() > 1 ==> q[1] is RootDir);
            assert forall|i: int| 0 <= i < q.len() implies match #[trigger] q[i] {
                Part::Prefix(_) => i == 0,
                Part::RootDir => i == drive(q).len(),
                Part::CurDir => i == drive(q).len() || is_verbatim(q),
                _ => true,
            } by {
                if i < p.len() {
                    assert(q[i] == p[i]);
                }
            }
        }
        if in_normal_form(s) {
            assert(in_normal_form(f));
            assert(p == f);
            assert(q =~= s);
        }
    } else {
        assert(q =~= s);
    }
}

/// The components that are left below some leading ones.
proof fn lemma_tail(p: Written, n: int)
    requires
        in_normal_form(p.parts()),
        0 <= n <= p.pieces.len(),
    ensures
        parts_in(tail_pieces(p, n)) == p.parts().skip(n),
        is_led_right(p.parts().skip(n)),
{
    let rest = p.parts().skip(n);
    assert(parts_in(tail_pieces(p, n)) =~= rest);
    assert(forall|k: int| 0 <= k < rest.len() ==> rest[k] == p.parts()[k + n]);
    if n == 0 {
        assert(rest =~= p.parts());
    }
}

/// What is left of a path below one of its leading parts leads back to the path when joined to
/// that part. Left out are a rest with `.` or `..` behind a verbatim prefix, where joining resolves
/// it, and a verbatim prefix that stands alone, which joining with nothing gives a root.
pub proof fn law_join_undoes_strip(base: Written, p: Written)
    requires
        in_normal_form(base.parts()),
        in_normal_form(p.parts()),
        starts_with(p, base),
        is_verbatim(base.parts()) ==> is_free_of_dots(p.parts().skip(base.pieces.len() as int)),
        p.pieces.len() == base.pieces.len() ==> !opens_root(base),
    ensures
        path_key(joined(base, stripped(p, base)).parts()) == path_key(p.parts()),
        base.parts().is_prefix_of(p.parts()) ==> joined(base, stripped(p, base)).parts()
            == p.parts(),
{
    let b = base.parts();
    let q = p.parts();
    let n = b.len() as int;
    let rest = q.skip(n);
    assert(b.len() == base.pieces.len() && q.len() == p.pieces.len());
    assert(path_key(b).len() == n && path_key(q).len() == q.len());
    assert forall|i: int| 0 <= i < n implies part_key(b[i]) == part_key(#[trigger] q[i]) by {
        assert(path_key(b)[i] == path_key(q)[i]);
    }
    assert(b.is_prefix_of(q) ==> b + rest =~= q);
    assert(path_key(b + rest) =~= path_key(q)) by {
        assert forall|i: int| 0 <= i < q.len() implies path_key(b + rest)[i] == path_key(q)[i] by {
            if i < n {
                assert((b + rest)[i] == b[i]);
            } else {
                assert((b + rest)[i] == q[i]);
            }
        }
    }
    lemma_tail(p, n);
    lemma_settled(tail_pieces(p, n));
    assert(forall|k: int| 0 <= k < rest.len() ==> rest[k] == q[k + n]);
    if n > 0 {
        lemma_same_drives(b, q);
    } else {
        assert(rest =~= q);
    }
    assert forall|k: int| 0 <= k < rest.len() && (#[trigger] rest[k]) is CurDir implies k == drive(
        rest,
    ).len() || is_verbatim(rest) by {
        assert(rest[k] == q[k + n]);
    }
    let s = stripped(p, base);
    assert(s.parts() == rest);
    assert(s.pieces.len() == rest.len());
    if rest.len() > 0 {
        assert(s.pieces[0].part == s.parts()[0]);
        assert(rest[0] == q[n]);
    }
    lemma_appended(base, s);
}

/// A path that was joined to a base is what is left of the result below the base, component by
/// component. Left out are the paths that joining does not just append: those with a drive or a
/// root of their own, a leading `.`, and `.` or `..` behind a verbatim prefix.
pub proof fn law_strip_undoes_join(base: Written, rel: Written)
    requires
        in_normal_form(base.parts()),
        in_normal_form(rel.parts()),
        is_appended(base, rel),
    ensures
        starts_with(joined(base, rel), base),
        base.parts().is_prefix_of(joined(base, rel).parts()),
        stripped(joined(base, rel), base).parts() == rel.parts(),
{
    let b = base.parts();
    let r = rel.parts();
    let n = b.len() as int;
    assert(b.len() == base.pieces.len());
    lemma_appended(base, rel);
    lemma_joined_form(base, rel);
    assert((b + r).skip(n) =~= r);
    assert(path_key(b) =~= path_key(b + r).take(n));
    lemma_tail(joined(base, rel), n);
    lemma_settled(tail_pieces(joined(base, rel), n));
}

/// The parent of a joined file is the joined directory, component by component. Left out is a
/// directory that resolves to nothing but a verbatim prefix, which gets its root with the file.
pub proof fn law_parent_of_joined(base: Written, dir: Written, file: Written, name: Seq<u8>)
    requires
        file.parts() == dir.parts().push(Part::Normal(name)),
        in_normal_form(base.parts()),
        in_normal_form(dir.parts()),
        is_verbatim(base.parts()) && joined(base, dir).parts().len() == 1 ==> dir.pieces.len() > 0
            && dir.pieces[0].part is Prefix,
    ensures
        parent_of(joined(base, file)) is Some,
        parent_of(joined(base, file))->0.parts() == joined(base, dir).parts(),
{
    let b = base.parts();
    let d = dir.parts();
    let f = file.parts();
    let whole = joined(base, file);
    lemma_joined_parts(base, file);
    lemma_joined_parts(base, dir);
    assert(d.len() == dir.pieces.len() && f.len() == file.pieces.len());
    assert(f.drop_last() =~= d);
    if d.len() > 0 {
        assert(f[0] == d[0] && dir.pieces[0].part == d[0]);
        assert(f.skip(1) =~= d.skip(1).push(Part::Normal(name)));
    }
    if is_verbatim(b) && (d.len() == 0 || !(d[0] is Prefix)) {
        let r = resolved(b, d);
        assert(resolved(b, f) == r.push(Part::Normal(name)));
        if d.len() == 0 {
            assert(r == b);
            if b.len() == 1 {
                assert(rooted(b.push(Part::Normal(name))) =~= b.push(Part::RootDir).push(
                    Part::Normal(name),
                ));
            } else {
                assert(b.push(Part::Normal(name))[1] == b[1]);
            }
        } else {
            assert(rooted(r).len() > 1 ==> rooted(r.push(Part::Normal(name))) =~= rooted(r).push(
                Part::Normal(name),
            ));
        }
    } else if d.len() > 0 {
        assert(whole.parts() =~= joined(base, dir).parts().push(Part::Normal(name)));
    } else {
        assert(whole.parts() =~= b.push(Part::Normal(name)));
    }
    assert(whole.parts() =~= joined(base, dir).parts().push(Part::Normal(name)));
    assert(whole.parts().len() == whole.pieces.len());
    assert(whole.parts().last() == whole.pieces.last().part);
    assert(parts_in(whole.pieces.drop_last()) =~= whole.parts().drop_last());
    assert(whole.parts().drop_last() =~= joined(base, dir).parts());
}

/// What is left of a file's path is what is left of its directory's, and the name.
pub proof fn lemma_stripped_push(dir: Written, file: Written, base: Written, name: Seq<u8>)
    requires
        file.parts() == dir.parts().push(Part::Normal(name)),
        in_normal_form(dir.parts()),
        base.pieces.len() <= dir.pieces.len(),
    ensures
        stripped(file, base).parts() == stripped(dir, base).parts().push(Part::Normal(name)),
{
    let n = base.pieces.len() as int;
    let t = tail_pieces(file, n);
    let u = tail_pieces(dir, n);
    assert(dir.parts().len() == dir.pieces.len() && file.parts().len() == file.pieces.len());
    assert(parts_in(t) =~= file.parts().skip(n));
    assert(parts_in(u) =~= dir.parts().skip(n));
    assert(t.len() == file.pieces.len() - n && u.len() == dir.pieces.len() - n);
    assert(parts_in(t.drop_last()) =~= parts_in(t).drop_last());
    assert(file.parts().skip(n).drop_last() =~= dir.parts().skip(n));
    lemma_settled_parts(t.drop_last(), u);
    assert(t.last().part == parts_in(t).last());
    assert(settled(t).0 == settled(t.drop_last()).0.push(
        WrittenPart { gap: settled(t.drop_last()).1 + t.last().gap, part: t.last().part },
    ));
    assert(parts_in(settled(t).0) =~= parts_in(settled(t.drop_last()).0).push(Part::Normal(name)));
}

/// What is left of a path is in form.
pub proof fn lemma_stripped_form(p: Written, base: Written)
    requires
        in_normal_form(p.parts()),
        base.pieces.len() <= p.pieces.len(),
    ensures
        in_normal_form(stripped(p, base).parts()),
{
    lemma_tail(p, base.pieces.len() as int);
    lemma_settled(tail_pieces(p, base.pieces.len() as int));
}

/// Which components are left does not depend on the gaps.
proof fn lemma_settled_parts(s: Seq<WrittenPart>, t: Seq<WrittenPart>)
    requires
        parts_in(s) == parts_in(t),
    ensures
        parts_in(settled(s).0) == parts_in(settled(t).0),
    decreases s.len(),
{
    assert(parts_in(s).len() == s.len() && parts_in(t).len() == t.len());
    if s.len() > 0 {
        assert(parts_in(s.drop_last()) =~= parts_in(s).drop_last());
        assert(parts_in(t.drop_last()) =~= parts_in(t).drop_last());
        lemma_settled_parts(s.drop_last(), t.drop_last());
        assert(parts_in(s).last() == s.last().part && parts_in(t).last() == t.last().part);
        let p = settled(s.drop_last()).0;
        let q = settled(t.drop_last()).0;
        assert(parts_in(p).len() == p.len() && parts_in(q).len() == q.len());
        let last = s.last().part;
        if last is CurDir && p.len() > drive(parts_in(p)).len() && !is_verbatim(parts_in(p)) {
            assert(settled(s).0 == p && settled(t).0 == q);
        } else {
            assert(parts_in(settled(s).0) =~= parts_in(p).push(last));
            assert(parts_in(settled(t).0) =~= parts_in(q).push(last));
        }
    }
}

proof fn lemma_pieces_text_add(a: Seq<WrittenPart>, b: Seq<WrittenPart>)
    ensures
        pieces_text(a + b) == pieces_text(a) + pieces_text(b),
    decreases b.len(),
{
    if b.len() == 0 {
        assert(a + b =~= a);
        assert(pieces_text(a) + pieces_text(b) =~= pieces_text(a));
    } else {
        lemma_pieces_text_add(a, b.drop_last());
        assert((a + b).drop_last() =~= a + b.drop_last());
        assert((a + b).last() == b.last());
        assert(pieces_text(a + b) =~= pieces_text(a) + pieces_text(b));
    }
}

proof fn lemma_one_piece_text(p: WrittenPart)
    ensures
        pieces_text(seq![p]) == p.gap + own_text(p.part),
{
    reveal_with_fuel(pieces_text, 2);
    assert(seq![p].drop_last() =~= Seq::empty());
    assert(pieces_text(seq![p]) =~= p.gap + own_text(p.part));
}

proof fn lemma_opened_text(a: Written)
    ensures
        opened(a).text() == a.text() + if needs_separator(a) {
            seq![main_separator(a.platform)]
        } else {
            Seq::empty()
        },
{
    let separator = seq![main_separator(a.platform)];
    let root = WrittenPart { gap: separator, part: Part::RootDir };
    let o = opened(a);
    if !needs_separator(a) {
        assert(o.text() =~= a.text() + Seq::empty());
    } else if opens_root(a) {
        assert(o.pieces.drop_last() =~= a.pieces);
        assert(o.text() =~= a.text() + separator);
    } else if a.after.len() == 0 && a.pieces.last().part is RootDir && a.pieces.last().gap.len()
        == 0 {
        if a.pieces.len() == 0 {
            assert(a.text() =~= Seq::empty());
        }
        assert(o.pieces.drop_last() =~= a.pieces.drop_last());
        assert(o.text() =~= a.text() + separator);
    } else {
        assert(o.text() =~= a.text() + separator);
    }
}

proof fn lemma_behind_text(
    front: Seq<WrittenPart>,
    between: Seq<u8>,
    rest: Seq<WrittenPart>,
    after: Seq<u8>,
    platform: Platform,
)
    ensures
        behind(front, between, rest, after, platform).text() == pieces_text(front) + between
            + pieces_text(rest) + after,
{
    let w = behind(front, between, rest, after, platform);
    if rest.len() == 0 {
        assert(w.text() =~= pieces_text(front) + between + pieces_text(rest) + after);
    } else {
        let first = WrittenPart { gap: between + rest[0].gap, part: rest[0].part };
        assert(rest.update(0, first) =~= seq![first] + rest.skip(1));
        assert(rest =~= seq![rest[0]] + rest.skip(1));
        lemma_pieces_text_add(front, rest.update(0, first));
        lemma_pieces_text_add(seq![first], rest.skip(1));
        lemma_pieces_text_add(seq![rest[0]], rest.skip(1));
        lemma_one_piece_text(first);
        lemma_one_piece_text(rest[0]);
        assert(w.text() =~= pieces_text(front) + between + pieces_text(rest) + after);
    }
}

/// A path without a drive or a root of its own is written behind the base as it stands, with a
/// separator between them where one is due. Behind a verbatim prefix it is written afresh.
pub proof fn law_join_writes_behind_the_base(base: Written, rel: Written)
    requires
        !is_verbatim(base.parts()) || rel.pieces.len() == 0,
        rel.pieces.len() > 0 ==> !(rel.pieces[0].part is Prefix) && !(
        rel.pieces[0].part is RootDir),
        rel.pieces.len() == 0 ==> rel.after.len() == 0,
    ensures
        joined(base, rel).text() == base.text() + (if needs_separator(base) {
            seq![main_separator(base.platform)]
        } else {
            Seq::empty()
        }) + rel.text(),
{
    lemma_opened_text(base);
    let o = opened(base);
    let front = pieces_text(o.pieces);
    if rel.pieces.len() == 0 {
        assert(rel.text() =~= Seq::empty());
        assert(o.text() + rel.text() =~= o.text());
    } else if rel.pieces[0].part is CurDir && base.pieces.len() > drive(base.parts()).len() {
        let first = rel.pieces[0];
        let rest = rel.pieces.skip(1);
        let between = o.after + first.gap + seq![46u8];
        lemma_behind_text(o.pieces, between, rest, rel.after, base.platform);
        assert(rel.pieces =~= seq![first] + rest);
        lemma_pieces_text_add(seq![first], rest);
        lemma_one_piece_text(first);
        lemma_regroup_dot(front, o.after, first.gap, pieces_text(rest), rel.after);
    } else {
        lemma_behind_text(o.pieces, o.after, rel.pieces, rel.after, base.platform);
        lemma_regroup(front, o.after, pieces_text(rel.pieces), rel.after);
    }
}

proof fn lemma_regroup(a: Seq<u8>, b: Seq<u8>, c: Seq<u8>, d: Seq<u8>)
    ensures
        a + b + c + d == (a + b) + (c + d),
{
    assert(a + b + c + d =~= (a + b) + (c + d));
}

proof fn lemma_regroup_dot(a: Seq<u8>, b: Seq<u8>, gap: Seq<u8>, c: Seq<u8>, d: Seq<u8>)
    ensures
        a + (b + gap + seq![46u8]) + c + d == (a + b) + (((gap + seq![46u8]) + c) + d),
{
    assert(a + (b + gap + seq![46u8]) + c + d =~= (a + b) + (((gap + seq![46u8]) + c) + d));
}

/// An owned path.
#[derive(Debug)]
pub struct PathBuf {
    pieces: Vec<Piece>,
    after: Vec<u8>,
    platform: Platform,
}

impl View for PathBuf {
    type V = Written;

    closed spec fn view(&self) -> Written {
        Written {
            pieces: pieces_of(self.pieces@),
            after: self.after@,
            platform: self.platform,
        }
    }
}

impl PartialEq for PathBuf {
    fn eq(&self, other: &Self) -> (r: bool) {
        self.same(other)
    }
}

impl vstd::std_specs::cmp::PartialEqSpecImpl for PathBuf {
    open spec fn obeys_eq_spec() -> bool {
        true
    }

    open spec fn eq_spec(&self, other: &Self) -> bool {
        self.key() == other.key()
    }
}

impl Eq for PathBuf {

}

impl Clone for PathBuf {
    fn clone(&self) -> (r: Self)
        ensures
            r@ == self@,
    {
        proof {
            use_type_invariant(self);
        }
        let pieces = copy_range(&self.pieces, 0, self.pieces.len());
        assert(pieces_of(pieces@) =~= pieces_of(self.pieces@));
        PathBuf { pieces, after: copy_bytes(&self.after), platform: self.platform }
    }
}

/// Whether the components are those of a path.
fn is_in_form(components: &Vec<Component>) -> (r: bool)
    ensures
        r == in_normal_form(parts_of(components@)),
{
    let verbatim = has_verbatim_prefix(components);
    let has_drive = components.len() > 0 && matches!(components[0], Component::Prefix(_));
    let drive_len: usize = if has_drive { 1 } else { 0 };
    let ghost p = parts_of(components@);
    assert(p.len() > 0 ==> p[0] == components@[0]@);
    assert(drive(p).len() == drive_len);
    if verbatim && components.len() > 1 {
        assert(p[1] == components@[1]@);
        if !matches!(components[1], Component::RootDir) {
            return false;
        }
    }
    let mut i: usize = 0;
    while i < components.len()
        invariant
            i <= components.len(),
            p == parts_of(components@),
            verbatim == is_verbatim(p),
            drive(p).len() == drive_len,
            forall|j: int|
                0 <= j < i ==> match #[trigger] p[j] {
                    Part::Prefix(_) => j == 0,
                    Part::RootDir => j == drive(p).len(),
                    Part::CurDir => j == drive(p).len() || is_verbatim(p),
                    _ => true,
                },
        decreases components.len() - i,
    {
        assert(p[i as int] == components@[i as int]@);
        let fits = match &components[i] {
            Component::Prefix(_) => i == 0,
            Component::RootDir => i == drive_len,
            Component::CurDir => i == drive_len || verbatim,
            _ => true,
        };
        if !fits {
            return false;
        }
        i = i + 1;
    }
    true
}

fn has_verbatim_prefix(components: &Vec<Component>) -> (r: bool)
    ensures
        r == is_verbatim(parts_of(components@)),
{
    assert(components@.len() > 0 ==> parts_of(components@)[0] == components@[0]@);
    if components.len() == 0 {
        return false;
    }
    match &components[0] {
        Component::Prefix(b) => is_verbatim_text(b),
        _ => false,
    }
}

fn is_disk_component(component: &Component) -> (r: bool)
    ensures
        r == is_disk(component@),
{
    match component {
        Component::Prefix(b) => b.len() == 2 && b[1] == 58,
        _ => false,
    }
}

/// The separator that the platform writes, as text.
fn separator_bytes(platform: Platform) -> (r: Vec<u8>)
    ensures
        r@ == seq![main_separator(platform)],
{
    let mut r: Vec<u8> = Vec::new();
    r.push(
        match platform {
            Platform::Windows => 92,
            Platform::Other => 47,
        },
    );
    assert(r@ =~= seq![main_separator(platform)]);
    r
}

/// Writes components afresh.
fn plain_pieces(components: &Vec<Component>, platform: Platform) -> (r: Vec<Piece>)
    ensures
        pieces_of(r@) == plain(parts_of(components@), platform).pieces,
{
    let ghost p = parts_of(components@);
    let mut out: Vec<Piece> = Vec::new();
    let mut i: usize = 0;
    assert(pieces_of(out@) =~= plain(p, platform).pieces.take(0));
    while i < components.len()
        invariant
            i <= components.len(),
            p == parts_of(components@),
            pieces_of(out@) == plain(p, platform).pieces.take(i as int),
        decreases components.len() - i,
    {
        let ghost before = out@;
        assert(p[i as int] == components@[i as int]@);
        assert(i > 0 ==> p[i - 1] == components@[i - 1]@);
        let separated = matches!(components[i], Component::RootDir) || (i > 0 && !matches!(
            components[i - 1],
            Component::RootDir
        ) && !is_disk_component(&components[i - 1]));
        let gap = if separated { separator_bytes(platform) } else { Vec::new() };
        assert(gap@ =~= plain_gap(p, i as int, platform));
        let piece = Piece { gap, component: components[i].clone() };
        out.push(piece);
        i = i + 1;
        assert(pieces_of(out@) =~= pieces_of(before).push(piece@));
        assert(pieces_of(out@) =~= plain(p, platform).pieces.take(i as int));
    }
    assert(pieces_of(out@) =~= plain(p, platform).pieces);
    out
}

/// Resolves `rel` behind a verbatim prefix.
fn resolve(base: &Vec<Component>, rel: &Vec<Component>) -> (r: Vec<Component>)
    requires
        in_normal_form(parts_of(base@)),
        is_verbatim(parts_of(base@)),
        in_normal_form(parts_of(rel@)),
        rel@.len() > 0 ==> !(rel@[0]@ is Prefix),
    ensures
        parts_of(r@) == rooted(resolved(parts_of(base@), parts_of(rel@))),
{
    let ghost b = parts_of(base@);
    let ghost p = parts_of(rel@);
    let mut out: Vec<Component> = Vec::new();
    let mut k: usize = 0;
    assert(parts_of(out@) =~= b.take(0));
    while k < base.len()
        invariant
            k <= base.len(),
            b == parts_of(base@),
            parts_of(out@) == b.take(k as int),
        decreases base.len() - k,
    {
        let ghost before = out@;
        let next = base[k].clone();
        out.push(next);
        k = k + 1;
        assert(parts_of(out@) =~= parts_of(before).push(base@[k - 1]@));
        assert(parts_of(out@) =~= b.take(k as int));
    }
    assert(parts_of(out@) =~= b);
    assert(forall|k: int| 0 <= k < p.len() ==> !((#[trigger] p[k]) is Prefix)) by {
        assert(p.len() > 0 ==> p[0] == rel@[0]@);
    }
    assert(p.take(0) =~= Seq::empty());
    let mut i: usize = 0;
    while i < rel.len()
        invariant
            i <= rel.len(),
            p == parts_of(rel@),
            in_normal_form(b),
            is_verbatim(b),
            forall|k: int| 0 <= k < p.len() ==> !((#[trigger] p[k]) is Prefix),
            parts_of(out@) == resolved(b, p.take(i as int)),
        decreases rel.len() - i,
    {
        let ghost before = out@;
        proof {
            assert(p.take(i + 1).drop_last() =~= p.take(i as int));
            assert(p.take(i + 1).last() == rel@[i as int]@);
            lemma_resolved(b, p.take(i as int));
            assert(parts_of(before).len() == before.len());
            assert(before.len() > 0);
            assert(parts_of(before).last() == before[before.len() - 1]@);
        }
        match &rel[i] {
            Component::RootDir => {
                out.truncate(1);
                out.push(Component::RootDir);
                assert(parts_of(out@) =~= parts_of(before).take(1).push(Part::RootDir));
            },
            Component::CurDir => {},
            Component::ParentDir => {
                if matches!(out[out.len() - 1], Component::Normal(_)) {
                    out.pop();
                    assert(parts_of(out@) =~= parts_of(before).drop_last());
                }
            },
            _ => {
                let next = rel[i].clone();
                out.push(next);
                assert(parts_of(out@) =~= parts_of(before).push(rel@[i as int]@));
            },
        }
        i = i + 1;
    }
    assert(p.take(rel.len() as int) =~= p);
    let ghost before = out@;
    assert(parts_of(before).len() == before.len());
    assert(before.len() > 1 ==> parts_of(before)[1] == before[1]@);
    if out.len() > 1 && !matches!(out[1], Component::RootDir) {
        out.insert(1, Component::RootDir);
    }
    assert(parts_of(out@) =~= rooted(parts_of(before)));
    out
}

impl PathBuf {
    #[verifier::type_invariant]
    closed spec fn in_form(self) -> bool {
        in_normal_form(parts_in(pieces_of(self.pieces@)))
    }

    /// What tells this path from others.
    pub open spec fn key(self) -> Seq<Part> {
        path_key(self@.parts())
    }

    /// Builds a path from its components, written afresh. Components that no path is split into
    /// are joined in order.
    pub fn from_components(components: &Vec<Component>, platform: Platform) -> (r: Self)
        ensures
            r@ == if in_normal_form(parts_of(components@)) {
                plain(parts_of(components@), platform)
            } else {
                collected(parts_of(components@), platform)
            },
    {
        if is_in_form(components) {
            let pieces = plain_pieces(components, platform);
            assert(parts_in(pieces_of(pieces@)) =~= parts_of(components@));
            let r = PathBuf { pieces, after: Vec::new(), platform };
            assert(r@.after =~= Seq::empty());
            r
        } else {
            PathBuf::collect(components, platform)
        }
    }

    /// Builds a path from its components as they were written; `after` is what stands behind the
    /// last of them. Components that no path is split into are joined in order.
    pub fn written(pieces: &Vec<Piece>, after: &Vec<u8>, platform: Platform) -> (r: Self)
        ensures
            r@ == if in_normal_form(parts_in(pieces_of(pieces@))) {
                Written { pieces: pieces_of(pieces@), after: after@, platform }
            } else {
                collected(parts_in(pieces_of(pieces@)), platform)
            },
    {
        let components = components_of(pieces);
        if is_in_form(&components) {
            let copy = copy_range(pieces, 0, pieces.len());
            assert(pieces_of(copy@) =~= pieces_of(pieces@));
            PathBuf { pieces: copy, after: copy_bytes(after), platform }
        } else {
            PathBuf::collect(&components, platform)
        }
    }

    /// Builds a path by joining components in order.
    pub fn collect(components: &Vec<Component>, platform: Platform) -> (r: Self)
        ensures
            r@ == collected(parts_of(components@), platform),
    {
        let mut out = PathBuf { pieces: Vec::new(), after: Vec::new(), platform };
        let mut i: usize = 0;
        assert(out@.pieces =~= Seq::empty() && out@.after =~= Seq::empty());
        assert(parts_of(components@).take(0) =~= Seq::empty());
        while i < components.len()
            invariant
                i <= components.len(),
                out@ == collected(parts_of(components@).take(i as int), platform),
            decreases components.len() - i,
        {
            let mut one: Vec<Component> = Vec::new();
            one.push(components[i].clone());
            assert(parts_of(one@) =~= seq![components@[i as int]@]);
            let pieces = plain_pieces(&one, platform);
            assert(parts_in(pieces_of(pieces@)) =~= seq![components@[i as int]@]);
            let rel = PathBuf { pieces, after: Vec::new(), platform };
            assert(rel@.after =~= Seq::empty());
            out = out.join(&rel);
            i = i + 1;
            assert(parts_of(components@).take(i as int).drop_last() =~= parts_of(components@).take(
                i - 1,
            ));
        }
        assert(parts_of(components@).take(components.len() as int) =~= parts_of(components@));
        out
    }

    /// The components, in order.
    pub fn components(&self) -> (r: Vec<Component>)
        ensures
            parts_of(r@) == self@.parts(),
            in_normal_form(self@.parts()),
    {
        proof {
            use_type_invariant(self);
        }
        components_of(&self.pieces)
    }

    /// The path as it was written.
    pub fn text(&self) -> (r: Vec<u8>)
        ensures
            r@ == self@.text(),
    {
        let mut out: Vec<u8> = Vec::new();
        let mut i: usize = 0;
        let ghost all = self@.pieces;
        assert(out@ =~= pieces_text(all.take(0)));
        while i < self.pieces.len()
            invariant
                i <= self.pieces.len(),
                all == pieces_of(self.pieces@),
                out@ == pieces_text(all.take(i as int)),
            decreases self.pieces.len() - i,
        {
            let ghost before = out@;
            append_bytes(&mut out, &self.pieces[i].gap);
            match &self.pieces[i].component {
                Component::Prefix(b) => append_bytes(&mut out, b),
                Component::RootDir => {},
                Component::CurDir => out.push(46),
                Component::ParentDir => {
                    out.push(46);
                    out.push(46);
                },
                Component::Normal(b) => append_bytes(&mut out, b),
            }
            i = i + 1;
            assert(all.take(i as int).drop_last() =~= all.take(i - 1));
            assert(all.take(i as int).last() == self.pieces@[i - 1]@);
            assert(out@ =~= pieces_text(all.take(i as int)));
        }
        assert(all.take(self.pieces.len() as int) =~= all);
        append_bytes(&mut out, &self.after);
        out
    }

    /// Pieces and bytes behind which a name can follow.
    fn open(&self) -> (r: (Vec<Piece>, Vec<u8>))
        ensures
            pieces_of(r.0@) == opened(self@).pieces,
            r.1@ == opened(self@).after,
    {
        let text = self.text();
        let n: usize = self.pieces.len();
        let mut pieces = copy_range(&self.pieces, 0, n);
        let mut after = copy_bytes(&self.after);
        let ghost a = self@;
        assert(pieces_of(pieces@) =~= a.pieces);
        assert(a.pieces.len() == n);
        assert(n > 0 ==> a.pieces[0] == self.pieces@[0]@ && a.pieces.last() == self.pieces@[n - 1]@);
        assert(n > 0 ==> a.parts()[0] == self.pieces@[0].component@);
        let windows = matches!(self.platform, Platform::Windows);
        let ends_open = text.len() == 0 || text[text.len() - 1] == 47 || (windows && text[text.len()
            - 1] == 92);
        if ends_open || (n == 1 && is_disk_component(&self.pieces[0].component) && after.len() == 0)
        {
            assert(!needs_separator(a));
            return (pieces, after);
        }
        assert(needs_separator(a));
        let lone_verbatim = n == 1 && match &self.pieces[0].component {
            Component::Prefix(b) => is_verbatim_text(b),
            _ => false,
        };
        let ghost root = WrittenPart {
            gap: seq![main_separator(a.platform)],
            part: Part::RootDir,
        };
        if lone_verbatim && after.len() == 0 {
            pieces.push(
                Piece { gap: separator_bytes(self.platform), component: Component::RootDir },
            );
            assert(pieces_of(pieces@) =~= a.pieces.push(root));
        } else if after.len() == 0 && n > 0 && matches!(
            self.pieces[n - 1].component,
            Component::RootDir
        ) && self.pieces[n - 1].gap.len() == 0 {
            pieces.pop();
            pieces.push(
                Piece { gap: separator_bytes(self.platform), component: Component::RootDir },
            );
            assert(pieces_of(pieces@) =~= a.pieces.drop_last().push(root));
        } else {
            if n == 0 {
                assert(a.text() =~= a.after);
            }
            append_bytes(&mut after, &separator_bytes(self.platform));
        }
        (pieces, after)
    }

    /// `rel` as seen from this path.
    pub fn join(&self, rel: &PathBuf) -> (r: PathBuf)
        ensures
            r@ == joined(self@, rel@),
    {
        proof {
            use_type_invariant(self);
            use_type_invariant(rel);
            lemma_joined_form(self@, rel@);
            assert(self@.parts().len() == self@.pieces.len());
        }
        let m: usize = rel.pieces.len();
        let n: usize = self.pieces.len();
        if m == 0 {
            let (pieces, after) = self.open();
            return PathBuf { pieces, after, platform: self.platform };
        }
        assert(rel@.pieces[0] == rel.pieces@[0]@);
        assert(rel@.parts()[0] == rel.pieces@[0].component@);
        assert(n > 0 ==> self@.parts()[0] == self.pieces@[0].component@);
        let has_drive = n > 0 && matches!(self.pieces[0].component, Component::Prefix(_));
        let drive_len: usize = if has_drive { 1 } else { 0 };
        assert(drive(self@.parts()).len() == drive_len);
        if matches!(rel.pieces[0].component, Component::Prefix(_)) {
            let pieces = copy_range(&rel.pieces, 0, m);
            assert(pieces_of(pieces@) =~= rel@.pieces);
            return PathBuf { pieces, after: copy_bytes(&rel.after), platform: self.platform };
        }
        let base = components_of(&self.pieces);
        if has_verbatim_prefix(&base) {
            let other = components_of(&rel.pieces);
            assert(parts_of(other@)[0] == other@[0]@);
            let resolved = resolve(&base, &other);
            let pieces = plain_pieces(&resolved, self.platform);
            let after: Vec<u8> = Vec::new();
            assert(after@ =~= Seq::empty());
            return PathBuf { pieces, after, platform: self.platform };
        }
        if matches!(rel.pieces[0].component, Component::RootDir) {
            let mut pieces = copy_range(&self.pieces, 0, drive_len);
            append_range(&mut pieces, &rel.pieces, 0, m);
            assert(pieces_of(pieces@) =~= joined(self@, rel@).pieces);
            return PathBuf { pieces, after: copy_bytes(&rel.after), platform: self.platform };
        }
        let (mut pieces, mut between) = self.open();
        let mut skip: usize = 0;
        if matches!(rel.pieces[0].component, Component::CurDir) && n > drive_len {
            append_bytes(&mut between, &rel.pieces[0].gap);
            between.push(46);
            skip = 1;
        }
        let ghost front = pieces_of(pieces@);
        let ghost rest = rel@.pieces.skip(skip as int);
        let ghost carried = between@;
        proof {
            assert(skip == 1 ==> carried =~= opened(self@).after + rel@.pieces[0].gap + seq![46u8]);
            assert(skip == 0 ==> rest =~= rel@.pieces);
            assert(joined(self@, rel@) == behind(
                front,
                carried,
                rest,
                rel@.after,
                self@.platform,
            ));
        }
        if skip == m {
            append_bytes(&mut between, &rel.after);
            return PathBuf { pieces, after: between, platform: self.platform };
        }
        append_bytes(&mut between, &rel.pieces[skip].gap);
        let first = Piece { gap: between, component: rel.pieces[skip].component.clone() };
        assert(rest[0] == rel.pieces@[skip as int]@);
        pieces.push(first);
        assert(pieces_of(pieces@) =~= front.push(first@));
        append_range(&mut pieces, &rel.pieces, skip + 1, m);
        assert(pieces_of(pieces@) =~= front + rest.update(
            0,
            WrittenPart { gap: carried + rest[0].gap, part: rest[0].part },
        ));
        PathBuf { pieces, after: copy_bytes(&rel.after), platform: self.platform }
    }

    /// The rest of this path below `base`, if `base` is one of its leading parts.
    pub fn strip_prefix(&self, base: &PathBuf) -> (r: Option<PathBuf>)
        ensures
            r is Some <==> starts_with(self@, base@),
            r matches Some(rest) ==> rest@ == stripped(self@, base@),
    {
        proof {
            use_type_invariant(self);
        }
        let n: usize = base.pieces.len();
        let ghost b = base@.parts();
        let ghost p = self@.parts();
        assert(b.len() == n && p.len() == self.pieces.len());
        assert(path_key(b).len() == n && path_key(p).len() == p.len());
        if n > self.pieces.len() {
            return None;
        }
        let mut i: usize = 0;
        while i < n
            invariant
                i <= n <= self.pieces.len(),
                n == base.pieces.len(),
                b == base@.parts(),
                p == self@.parts(),
                path_key(b).len() == n,
                path_key(p).len() == self.pieces.len(),
                forall|j: int| 0 <= j < i ==> path_key(b)[j] == #[trigger] path_key(p)[j],
            decreases n - i,
        {
            assert(path_key(b)[i as int] == part_key(base.pieces@[i as int].component@));
            assert(path_key(p)[i as int] == part_key(self.pieces@[i as int].component@));
            if !base.pieces[i].component.same(&self.pieces[i].component) {
                return None;
            }
            i = i + 1;
        }
        assert(path_key(b) =~= path_key(p).take(n as int));
        proof {
            lemma_tail(self@, n as int);
            lemma_settled(tail_pieces(self@, n as int));
        }
        let mut rest = copy_range(&self.pieces, n, self.pieces.len());
        assert(pieces_of(rest@) =~= self@.pieces.skip(n as int));
        if n > 0 && rest.len() > 0 && !matches!(rest[0].component, Component::RootDir) {
            let ghost before = rest@;
            assert(pieces_of(before)[0] == before[0]@);
            let first = Piece { gap: Vec::new(), component: rest[0].component.clone() };
            assert(first@.gap =~= Seq::empty());
            rest.set(0, first);
            assert(pieces_of(rest@) =~= pieces_of(before).update(0, first@));
        } else {
            assert(rest@.len() > 0 ==> pieces_of(rest@)[0] == rest@[0]@);
        }
        assert(pieces_of(rest@) == tail_pieces(self@, n as int));
        let pieces = settle(&rest);
        let after: Vec<u8> = Vec::new();
        assert(after@ =~= Seq::empty());
        Some(PathBuf { pieces, after, platform: self.platform })
    }

    /// The directory that holds this path's last component, if there is one.
    pub fn parent(&self) -> (r: Option<PathBuf>)
        ensures
            r is Some <==> parent_of(self@) is Some,
            r matches Some(p) ==> Some(p@) == parent_of(self@),
    {
        proof {
            use_type_invariant(self);
        }
        let n: usize = self.pieces.len();
        if n == 0 {
            return None;
        }
        assert(self@.pieces.last() == self.pieces@[n - 1]@);
        match &self.pieces[n - 1].component {
            Component::Prefix(_) | Component::RootDir => None,
            _ => {
                let pieces = copy_range(&self.pieces, 0, n - 1);
                let after: Vec<u8> = Vec::new();
                proof {
                    assert(after@ =~= Seq::empty());
                    assert(pieces_of(pieces@) =~= self@.pieces.drop_last());
                    let p = self@.parts();
                    let q = parts_in(pieces_of(pieces@));
                    assert(q =~= p.drop_last());
                    assert(forall|k: int| 0 <= k < q.len() ==> q[k] == p[k]);
                    assert(q.len() > 0 ==> drive(q).len() == drive(p).len() && is_verbatim(q)
                        == is_verbatim(p));
                }
                Some(PathBuf { pieces, after, platform: self.platform })
            },
        }
    }

    /// Whether two paths are the same.
    pub fn same(&self, other: &PathBuf) -> (r: bool)
        ensures
            r == (self.key() == other.key()),
    {
        let ghost p = self@.parts();
        let ghost q = other@.parts();
        assert(path_key(p).len() == self.pieces.len() && path_key(q).len() == other.pieces.len());
        if self.pieces.len() != other.pieces.len() {
            return false;
        }
        let mut i: usize = 0;
        while i < self.pieces.len()
            invariant
                i <= self.pieces.len(),
                self.pieces.len() == other.pieces.len(),
                p == self@.parts(),
                q == other@.parts(),
                path_key(p).len() == self.pieces.len(),
                path_key(q).len() == self.pieces.len(),
                forall|j: int| 0 <= j < i ==> path_key(q)[j] == #[trigger] path_key(p)[j],
            decreases self.pieces.len() - i,
        {
            assert(path_key(q)[i as int] == part_key(other.pieces@[i as int].component@));
            assert(path_key(p)[i as int] == part_key(self.pieces@[i as int].component@));
            if !self.pieces[i].component.same(&other.pieces[i].component) {
                return false;
            }
            i = i + 1;
        }
        assert(path_key(p) =~= path_key(q));
        true
    }

    /// The platform whose paths are written like this one.
    pub fn platform(&self) -> (r: Platform)
        ensures
            r == self@.platform,
    {
        self.platform
    }

    /// This path for display, as it was written.
    pub fn display(&self) -> (r: String)
        ensures
            r@ == displayed(self@),
    {
        let text = self.text();
        match self.platform {
            Platform::Windows => text_from_bytes(&replace_surrogates(&text)),
            Platform::Other => text_from_bytes(&text),
        }
    }
}

/// The components of some pieces.
fn components_of(pieces: &Vec<Piece>) -> (r: Vec<Component>)
    ensures
        parts_of(r@) == parts_in(pieces_of(pieces@)),
{
    let ghost p = parts_in(pieces_of(pieces@));
    let mut out: Vec<Component> = Vec::new();
    let mut i: usize = 0;
    assert(parts_of(out@) =~= p.take(0));
    while i < pieces.len()
        invariant
            i <= pieces.len(),
            p == parts_in(pieces_of(pieces@)),
            parts_of(out@) == p.take(i as int),
        decreases pieces.len() - i,
    {
        let ghost before = out@;
        let next = pieces[i].component.clone();
        out.push(next);
        i = i + 1;
        assert(parts_of(out@) =~= parts_of(before).push(pieces@[i - 1].component@));
        assert(parts_of(out@) =~= p.take(i as int));
    }
    assert(p.take(pieces.len() as int) =~= p);
    out
}

/// Reads pieces without what stood before them.
fn settle(pieces: &Vec<Piece>) -> (r: Vec<Piece>)
    requires
        is_led_right(parts_in(pieces_of(pieces@))),
    ensures
        pieces_of(r@) == settled(pieces_of(pieces@)).0,
{
    let ghost all = pieces_of(pieces@);
    let components = components_of(pieces);
    let verbatim = has_verbatim_prefix(&components);
    let has_drive = pieces.len() > 0 && matches!(pieces[0].component, Component::Prefix(_));
    let drive_len: usize = if has_drive { 1 } else { 0 };
    assert(all.len() > 0 ==> parts_in(all)[0] == pieces@[0].component@);
    let mut out: Vec<Piece> = Vec::new();
    let mut between: Vec<u8> = Vec::new();
    let mut i: usize = 0;
    assert(all.take(0) =~= Seq::empty());
    assert(pieces_of(out@) =~= Seq::empty() && between@ =~= Seq::empty());
    while i < pieces.len()
        invariant
            i <= pieces.len(),
            all == pieces_of(pieces@),
            is_led_right(parts_in(all)),
            verbatim == is_verbatim(parts_in(all)),
            drive(parts_in(all)).len() == drive_len,
            pieces_of(out@) == settled(all.take(i as int)).0,
            between@ == settled(all.take(i as int)).1,
        decreases pieces.len() - i,
    {
        let ghost p = pieces_of(out@);
        proof {
            let front = all.take(i as int);
            assert(all.take(i + 1).drop_last() =~= front);
            assert(all.take(i + 1).last() == pieces@[i as int]@);
            let f = parts_in(front);
            assert(forall|k: int| 0 <= k < f.len() ==> f[k] == parts_in(all)[k]);
            assert(f.len() > 0 ==> drive(f).len() == drive_len && is_verbatim(f) == verbatim);
            assert(is_led_right(f));
            lemma_settled(front);
            assert(p.len() > 0 ==> parts_in(p)[0] == p[0].part && f[0] == front[0].part);
            assert(p.len() == out@.len());
            assert(p.len() > 0 ==> drive(parts_in(p)).len() == drive_len && is_verbatim(parts_in(p))
                == verbatim);
            assert(p.len() == 0 ==> drive(parts_in(p)).len() == 0);
        }
        append_bytes(&mut between, &pieces[i].gap);
        if matches!(pieces[i].component, Component::CurDir) && out.len() > 0 && out.len()
            > drive_len && !verbatim {
            between.push(46);
            assert(between@ =~= settled(all.take(i as int)).1 + pieces@[i as int]@.gap
                + seq![46u8]);
        } else {
            let piece = Piece { gap: between, component: pieces[i].component.clone() };
            out.push(piece);
            assert(pieces_of(out@) =~= p.push(piece@));
            between = Vec::new();
            assert(between@ =~= Seq::empty());
        }
        i = i + 1;
    }
    assert(all.take(pieces.len() as int) =~= all);
    out
}

/// Replaces each encoded surrogate by the encoded replacement character.
fn replace_surrogates(b: &Vec<u8>) -> (r: Vec<u8>)
    ensures
        r@ == without_surrogates(b@),
{
    let mut out: Vec<u8> = Vec::new();
    let mut i: usize = 0;
    assert(out@ + without_surrogates(b@.skip(0)) =~= without_surrogates(b@)) by {
        assert(b@.skip(0) =~= b@);
    }
    while i < b.len()
        invariant
            i <= b.len(),
            out@ + without_surrogates(b@.skip(i as int)) == without_surrogates(b@),
        decreases b.len() - i,
    {
        let ghost before = out@;
        let ghost rest = b@.skip(i as int);
        if b.len() - i >= 3 && b[i] == 0xed && b[i + 1] >= 0xa0 {
            out.push(0xef);
            out.push(0xbf);
            out.push(0xbd);
            assert(rest.skip(3) =~= b@.skip(i + 3));
            assert(out@ =~= before + seq![0xefu8, 0xbfu8, 0xbdu8]);
            assert(before + (seq![0xefu8, 0xbfu8, 0xbdu8] + without_surrogates(rest.skip(3)))
                =~= out@ + without_surrogates(rest.skip(3)));
            i = i + 3;
        } else {
            out.push(b[i]);
            assert(rest.skip(1) =~= b@.skip(i + 1));
            assert(out@ =~= before + seq![rest[0]]);
            assert(before + (seq![rest[0]] + without_surrogates(rest.skip(1))) =~= out@
                + without_surrogates(rest.skip(1)));
            i = i + 1;
        }
    }
    assert(b@.skip(b.len() as int) =~= Seq::empty());
    assert(out@ + without_surrogates(Seq::empty()) =~= out@);
    out
}

/// Two components other than drives are the same only if they are written the same, and none is the
/// same as a drive.
pub proof fn law_names_are_told_apart_exactly(a: Part, b: Part)
    ensures
        part_key(a) == part_key(b) && !(a is Prefix) <==> a == b && !(a is Prefix),
        part_key(a) == part_key(b) ==> (a is Prefix <==> b is Prefix),
        part_key(a) is Normal <==> a is Normal,
        a is Normal && b is Normal ==> (part_key(a) == part_key(b) <==> a->Normal_0
            == b->Normal_0),
{
}

/// Drives are the same whatever the case of their letters, but not if they differ in anything else.
pub proof fn law_drives_ignore_case(x: u8, y: u8)
    ensures
        part_key(Part::Prefix(seq![x, 58u8])) == part_key(Part::Prefix(seq![y, 58u8])) <==> {
            ||| x == y
            ||| 97 <= x <= 122 && y == x - 32
            ||| 97 <= y <= 122 && x == y - 32
        },
        part_key(Part::Prefix(seq![92u8, 92u8, 63u8, 92u8, x, 58u8])) == part_key(
            Part::Prefix(seq![92u8, 92u8, 63u8, 92u8, y, 58u8]),
        ) <==> {
            ||| x == y
            ||| 97 <= x <= 122 && y == x - 32
            ||| 97 <= y <= 122 && x == y - 32
        },
{
    let a = seq![x, 58u8];
    let b = seq![y, 58u8];
    assert(folded(a) =~= seq![upper(x), 58u8] && folded(b) =~= seq![upper(y), 58u8]);
    assert(folded(a)[0] == upper(x) && folded(b)[0] == upper(y));
    let c = seq![92u8, 92u8, 63u8, 92u8, x, 58u8];
    let d = seq![92u8, 92u8, 63u8, 92u8, y, 58u8];
    assert(folded(c)[4] == upper(x) && folded(d)[4] == upper(y));
    if upper(x) == upper(y) {
        assert(folded(a) =~= folded(b));
        assert(folded(c) =~= folded(d));
    }
}

/// Of other prefixes only the kind of slash does not matter, and in those that begin with `\\?\` even
/// that does.
pub proof fn law_shares_ignore_the_kind_of_slash(a: Seq<u8>, b: Seq<u8>)
    requires
        !(a.len() == 2 && a[1] == 58),
        !(b.len() == 2 && b[1] == 58),
        !(a.len() == 6 && a[5] == 58),
        !(b.len() == 6 && b[5] == 58),
    ensures
        ({
            let verbatim = a.len() >= 4 && a.take(4) == seq![92u8, 92u8, 63u8, 92u8];
            let other_verbatim = b.len() >= 4 && b.take(4) == seq![92u8, 92u8, 63u8, 92u8];
            part_key(Part::Prefix(a)) == part_key(Part::Prefix(b)) <==> if verbatim
                || other_verbatim {
                a == b
            } else {
                a.len() == b.len() && forall|i: int|
                    0 <= i < a.len() ==> (#[trigger] a[i] == b[i] || ((a[i] == 47 || a[i] == 92) && (
                    b[i] == 47 || b[i] == 92)))
            }
        }),
{
    let start = seq![92u8, 92u8, 63u8, 92u8];
    lemma_verbatim_start(a);
    lemma_verbatim_start(b);
    assert(folded(a).len() == a.len() && folded(b).len() == b.len());
    if folded(a) == folded(b) {
        lemma_same_prefixes(a, b);
        if !verbatim_text(a) {
            assert forall|i: int| 0 <= i < a.len() implies (#[trigger] a[i] == b[i] || ((a[i] == 47
                || a[i] == 92) && (b[i] == 47 || b[i] == 92))) by {
                assert(folded(a)[i] == slashed(a[i]) && folded(b)[i] == slashed(b[i]));
            }
        }
    } else if !verbatim_text(a) && !verbatim_text(b) && a.len() == b.len() && (forall|i: int|
        0 <= i < a.len() ==> (#[trigger] a[i] == b[i] || ((a[i] == 47 || a[i] == 92) && (b[i] == 47
            || b[i] == 92)))) {
        assert(folded(a) =~= folded(b)) by {
            assert forall|i: int| 0 <= i < a.len() implies folded(a)[i] == folded(b)[i] by {
                assert(folded(a)[i] == slashed(a[i]) && folded(b)[i] == slashed(b[i]));
                assert(a[i] == b[i] || ((a[i] == 47 || a[i] == 92) && (b[i] == 47 || b[i] == 92)));
            }
        }
    }
}

proof fn lemma_verbatim_start(b: Seq<u8>)
    ensures
        verbatim_text(b) <==> b.len() >= 4 && b.take(4) == seq![92u8, 92u8, 63u8, 92u8],
{
    if verbatim_text(b) {
        assert(b.take(4) =~= seq![92u8, 92u8, 63u8, 92u8]);
    } else if b.len() >= 4 && b.take(4) == seq![92u8, 92u8, 63u8, 92u8] {
        assert(b.take(4)[0] == b[0] && b.take(4)[1] == b[1]);
        assert(b.take(4)[2] == b[2] && b.take(4)[3] == b[3]);
    }
}

/// A path is verbatim exactly if it starts with a prefix that begins with `\\?\`.
pub proof fn law_verbatim_paths_begin_so(p: Seq<Part>)
    ensures
        is_verbatim(p) <==> p.len() > 0 && p[0] is Prefix && p[0]->Prefix_0.len() >= 4
            && p[0]->Prefix_0.take(4) == seq![92u8, 92u8, 63u8, 92u8],
{
    if p.len() > 0 && p[0] is Prefix {
        lemma_verbatim_start(p[0]->Prefix_0);
    }
}

/// What a path is split into.
pub proof fn law_where_components_can_stand(p: Seq<Part>)
    ensures
        in_normal_form(p) <==> {
            &&& forall|i: int|
                0 <= i < p.len() ==> match #[trigger] p[i] {
                    Part::Prefix(_) => i == 0,
                    Part::RootDir => i == if p[0] is Prefix {
                        1int
                    } else {
                        0
                    },
                    Part::CurDir => is_verbatim(p) || i == if p[0] is Prefix {
                        1int
                    } else {
                        0
                    },
                    _ => true,
                }
            &&& is_verbatim(p) && p.len() > 1 ==> p[1] is RootDir
        },
{
    assert(p.len() > 0 ==> drive(p).len() == if p[0] is Prefix {
        1int
    } else {
        0
    });
}

/// A path starts with another if the components of that one are its first components, one for one.
/// How either of them is written does not matter.
pub proof fn law_leading_components_decide(p: Written, base: Written)
    ensures
        starts_with(p, base) <==> base.pieces.len() <= p.pieces.len() && forall|i: int|
            0 <= i < base.pieces.len() ==> part_key(#[trigger] base.pieces[i].part) == part_key(
                p.pieces[i].part,
            ),
        starts_with(p, p),
        base.pieces.len() == 0 ==> starts_with(p, base),
        starts_with(p, base) && starts_with(base, p) ==> path_key(p.parts()) == path_key(
            base.parts(),
        ),
{
    let a = path_key(base.parts());
    let b = path_key(p.parts());
    assert(a.len() == base.pieces.len() && b.len() == p.pieces.len());
    assert(forall|i: int| 0 <= i < a.len() ==> a[i] == part_key(base.pieces[i].part));
    assert(forall|i: int| 0 <= i < b.len() ==> b[i] == part_key(p.pieces[i].part));
    if starts_with(p, base) {
        assert forall|i: int| 0 <= i < base.pieces.len() implies part_key(
            #[trigger] base.pieces[i].part,
        ) == part_key(p.pieces[i].part) by {
            assert(a[i] == b[i]);
        }
        if starts_with(base, p) {
            assert(a =~= b);
        }
    } else if base.pieces.len() <= p.pieces.len() && (forall|i: int|
        0 <= i < base.pieces.len() ==> part_key(#[trigger] base.pieces[i].part) == part_key(
            p.pieces[i].part,
        )) {
        assert(a =~= b.take(a.len() as int)) by {
            assert forall|i: int| 0 <= i < a.len() implies a[i] == b[i] by {
                assert(part_key(base.pieces[i].part) == part_key(p.pieces[i].part));
            }
        }
    }
    assert(b =~= b.take(b.len() as int));
}

/// What is below a directory is below all that this directory is below.
pub proof fn law_below_is_transitive(p: Written, q: Written, r: Written)
    requires
        starts_with(p, q),
        starts_with(q, r),
    ensures
        starts_with(p, r),
{
    let a = path_key(p.parts());
    let b = path_key(q.parts());
    let c = path_key(r.parts());
    assert(forall|i: int| 0 <= i < c.len() ==> c[i] == b[i]);
    assert(forall|i: int| 0 <= i < b.len() ==> b[i] == a[i]);
    assert(c =~= a.take(c.len() as int));
}

/// What is left of a path below another are the components behind it, as they are. Left out are `.`
/// and `..` behind a verbatim prefix.
pub proof fn law_strip_leaves_the_rest(p: Written, base: Written)
    requires
        in_normal_form(p.parts()),
        starts_with(p, base),
        is_verbatim(p.parts()) ==> is_free_of_dots(p.parts().skip(base.pieces.len() as int)),
    ensures
        stripped(p, base).parts() == p.parts().skip(base.pieces.len() as int),
        stripped(p, base).after.len() == 0,
        stripped(p, base).platform == p.platform,
{
    let q = p.parts();
    let n = base.pieces.len() as int;
    let rest = q.skip(n);
    law_leading_components_decide(p, base);
    assert(q.len() == p.pieces.len());
    lemma_tail(p, n);
    lemma_settled(tail_pieces(p, n));
    assert(forall|k: int| 0 <= k < rest.len() ==> rest[k] == q[k + n]);
    if n == 0 {
        assert(rest =~= q);
    }
    assert forall|k: int| 0 <= k < rest.len() && (#[trigger] rest[k]) is CurDir implies k == drive(
        rest,
    ).len() || is_verbatim(rest) by {
        assert(rest[k] == q[k + n]);
    }
}

/// The bytes of what is left stand in the path as they are, next to each other.
pub proof fn law_strip_keeps_what_was_written(p: Written, base: Written)
    requires
        base.pieces.len() <= p.pieces.len(),
    ensures
        exists|before: Seq<u8>, behind: Seq<u8>|
            #[trigger] (before + stripped(p, base).text() + behind) == p.text(),
{
    let n = base.pieces.len() as int;
    let t = tail_pieces(p, n);
    let rest = p.pieces.skip(n);
    let front = p.pieces.take(n);
    lemma_settled_text(t);
    assert(p.pieces =~= front + rest);
    lemma_pieces_text_add(front, rest);
    let s = stripped(p, base);
    assert(s.text() =~= pieces_text(settled(t).0));
    let gap = if t == rest {
        Seq::empty()
    } else {
        rest[0].gap
    };
    assert(pieces_text(rest) =~= gap + pieces_text(t)) by {
        if t != rest {
            assert(rest =~= seq![rest[0]] + rest.skip(1));
            assert(t =~= seq![t[0]] + rest.skip(1));
            lemma_pieces_text_add(seq![rest[0]], rest.skip(1));
            lemma_pieces_text_add(seq![t[0]], rest.skip(1));
            lemma_one_piece_text(rest[0]);
            lemma_one_piece_text(t[0]);
        }
    }
    let before = pieces_text(front) + gap;
    let behind = settled(t).1 + p.after;
    assert(before + s.text() + behind =~= p.text());
}

proof fn lemma_settled_text(pieces: Seq<WrittenPart>)
    ensures
        pieces_text(settled(pieces).0) + settled(pieces).1 == pieces_text(pieces),
    decreases pieces.len(),
{
    if pieces.len() > 0 {
        lemma_settled_text(pieces.drop_last());
        let (p, between) = settled(pieces.drop_last());
        let last = pieces.last();
        let piece = WrittenPart { gap: between + last.gap, part: last.part };
        assert(p.push(piece).drop_last() =~= p);
        assert(pieces_text(p.push(piece)) == pieces_text(p) + piece.gap + own_text(last.part));
    }
    assert(pieces_text(settled(pieces).0) + settled(pieces).1 =~= pieces_text(pieces));
}

/// Every path with a last name has a parent: the path up to that name. Nothing is left of a drive, a
/// root or an empty path.
pub proof fn law_parent_is_all_but_the_last_name(p: Written)
    ensures
        parent_of(p) is None <==> p.pieces.len() == 0 || p.parts().last() is Prefix
            || p.parts().last() is RootDir,
        parent_of(p) is Some ==> {
            &&& parent_of(p)->0.parts() == p.parts().drop_last()
            &&& parent_of(p)->0.text().is_prefix_of(p.text())
            &&& parent_of(p)->0.platform == p.platform
            &&& starts_with(p, parent_of(p)->0)
        },
{
    assert(p.parts().len() == p.pieces.len());
    if p.pieces.len() > 0 {
        assert(p.parts().last() == p.pieces.last().part);
        let q = Written { pieces: p.pieces.drop_last(), after: Seq::empty(), platform: p.platform };
        assert(q.parts() =~= p.parts().drop_last());
        assert(q.text() =~= p.text().take(q.text().len() as int));
        law_leading_components_decide(p, q);
    }
}

/// Unless the base is verbatim, joining puts the components of the second path behind those of the
/// first. A drive replaces them all, a root all but the drive, and a leading `.` is left out behind
/// any component but a drive.
pub proof fn law_components_of_joined(base: Written, rel: Written)
    requires
        rel.pieces.len() > 0,
        !is_verbatim(base.parts()) || rel.parts()[0] is Prefix,
    ensures
        ({
            let b = base.parts();
            let r = rel.parts();
            let has_drive = b.len() > 0 && b[0] is Prefix;
            joined(base, rel).parts() == match r[0] {
                Part::Prefix(_) => r,
                Part::RootDir => if has_drive {
                    seq![b[0]] + r
                } else {
                    r
                },
                Part::CurDir => if b.len() == 0 || (has_drive && b.len() == 1) {
                    b + r
                } else {
                    b + r.skip(1)
                },
                _ => b + r,
            }
        }),
        joined(base, rel).platform == base.platform,
{
    lemma_joined_parts(base, rel);
    let b = base.parts();
    let r = rel.parts();
    if b.len() > 0 && b[0] is Prefix {
        assert(drive(b) =~= seq![b[0]]);
    } else {
        assert(drive(b) =~= Seq::empty());
        assert(drive(b) + r =~= r);
    }
}

/// Joining the empty path keeps the components; only a verbatim prefix that stands alone gets its
/// root.
pub proof fn law_joining_nothing_keeps_the_components(base: Written, rel: Written)
    requires
        rel.pieces.len() == 0,
    ensures
        base.pieces.len() != 1 || !is_verbatim(base.parts()) ==> joined(base, rel).parts()
            == base.parts(),
        joined(base, rel).parts() == base.parts() || joined(base, rel).parts()
            == base.parts().push(Part::RootDir),
        joined(base, rel).platform == base.platform,
{
    lemma_joined_parts(base, rel);
}

/// A path with a drive is taken as it was written, and one with a root is written behind the drive
/// of the base.
pub proof fn law_absolute_paths_replace_the_base(base: Written, rel: Written)
    requires
        rel.pieces.len() > 0,
    ensures
        rel.pieces[0].part is Prefix ==> joined(base, rel).text() == rel.text(),
        rel.pieces[0].part is RootDir && !is_verbatim(base.parts()) ==> joined(base, rel).text()
            == if base.pieces.len() > 0 && base.pieces[0].part is Prefix {
            base.pieces[0].gap + base.pieces[0].part->Prefix_0 + rel.text()
        } else {
            rel.text()
        },
{
    let b = base.parts();
    if rel.pieces[0].part is RootDir && !is_verbatim(b) {
        let n = drive(b).len() as int;
        let front = base.pieces.take(n);
        lemma_pieces_text_add(front, rel.pieces);
        assert(b.len() == base.pieces.len());
        if base.pieces.len() > 0 && base.pieces[0].part is Prefix {
            assert(b[0] == base.pieces[0].part);
            assert(front =~= seq![base.pieces[0]]);
            lemma_one_piece_text(base.pieces[0]);
            assert(joined(base, rel).text() =~= base.pieces[0].gap + base.pieces[0].part->Prefix_0
                + rel.text());
        } else {
            assert(base.pieces.len() > 0 ==> b[0] == base.pieces[0].part);
            assert(front =~= Seq::empty());
            assert(joined(base, rel).text() =~= rel.text());
        }
    }
}

/// Between a base and what is written behind it stands one separator: a new one, `\` on Windows and
/// `/` elsewhere, exactly if the base is not empty, does not end in a separator, and is not a bare
/// drive. On Windows either slash is a separator.
pub proof fn law_one_separator_stands_between(base: Written, rel: Written)
    requires
        !is_verbatim(base.parts()),
        rel.pieces.len() > 0 ==> !(rel.pieces[0].part is Prefix) && !(
        rel.pieces[0].part is RootDir),
        rel.pieces.len() == 0 ==> rel.after.len() == 0,
    ensures
        ({
            let text = base.text();
            let windows = base.platform is Windows;
            let ends = text.len() == 0 || text.last() == 47 || (windows && text.last() == 92);
            let bare = base.pieces.len() == 1 && base.after.len() == 0 && base.pieces[0].part is Prefix
                && base.pieces[0].part->Prefix_0.len() == 2 && base.pieces[0].part->Prefix_0[1] == 58;
            joined(base, rel).text() == if ends || bare {
                text + rel.text()
            } else if windows {
                text + seq![92u8] + rel.text()
            } else {
                text + seq![47u8] + rel.text()
            }
        }),
{
    law_join_writes_behind_the_base(base, rel);
    assert(base.text() + Seq::empty() =~= base.text());
}

/// Behind a verbatim prefix with its root, paths are resolved: a name is added, `.` changes nothing,
/// `..` takes a name away but never the root, and a root leads back to the prefix's own.
pub proof fn law_verbatim_paths_are_resolved(base: Written, rel: Written)
    requires
        is_verbatim(base.parts()),
        in_normal_form(base.parts()),
        base.pieces.len() > 1,
        rel.pieces.len() == 1,
    ensures
        ({
            let b = base.parts();
            joined(base, rel).parts() == match rel.pieces[0].part {
                Part::Prefix(_) => rel.parts(),
                Part::RootDir => seq![b[0], Part::RootDir],
                Part::CurDir => b,
                Part::ParentDir => if b.last() is Normal {
                    b.drop_last()
                } else {
                    b
                },
                Part::Normal(name) => b.push(Part::Normal(name)),
            }
        }),
{
    lemma_joined_parts(base, rel);
    let b = base.parts();
    let r = rel.parts();
    assert(b.len() == base.pieces.len());
    assert(r.len() == 1 && r[0] == rel.pieces[0].part && r.last() == r[0]);
    assert(r.drop_last() =~= Seq::empty());
    assert(resolved(b, Seq::empty()) == b);
    assert(b[1] is RootDir);
    if r[0] is RootDir {
        assert(b.take(1).push(Part::RootDir) =~= seq![b[0], Part::RootDir]);
    }
}

/// Resolving a path behind a verbatim prefix with its root is resolving its components one after the
/// other.
pub proof fn law_verbatim_paths_are_resolved_in_steps(
    base: Written,
    front: Written,
    rel: Written,
    last: Written,
)
    requires
        is_verbatim(base.parts()),
        in_normal_form(base.parts()),
        base.pieces.len() > 1,
        front.pieces.len() > 0,
        forall|i: int| 0 <= i < rel.pieces.len() ==> !((#[trigger] rel.pieces[i]).part is Prefix),
        last.pieces.len() == 1,
        rel.parts() == front.parts() + last.parts(),
    ensures
        joined(base, rel).parts() == joined(joined(base, front), last).parts(),
{
    let b = base.parts();
    let f = front.parts();
    let r = rel.parts();
    let l = last.parts();
    assert(f.len() == front.pieces.len() && r.len() == rel.pieces.len() && l.len() == 1);
    assert(r.drop_last() =~= f && r.last() == l[0]);
    assert(r[0] == f[0]);
    assert forall|i: int| 0 <= i < r.len() implies !((#[trigger] r[i]) is Prefix) by {
        assert(r[i] == rel.pieces[i].part);
    }
    assert forall|i: int| 0 <= i < f.len() implies !((#[trigger] f[i]) is Prefix) by {
        assert(f[i] == r[i]);
    }
    assert(l[0] == r[r.len() - 1]);
    lemma_joined_parts(base, rel);
    lemma_joined_parts(base, front);
    lemma_joined_parts(joined(base, front), last);
    lemma_stays_rooted(b, f);
    lemma_stays_rooted(b, r);
    let p = resolved(b, f);
    assert(joined(base, front).parts() == p);
    assert(l.drop_last() =~= Seq::empty());
    assert(resolved(p, Seq::empty()) == p);
    assert(resolved(p, l) == resolved(b, r));
}

proof fn lemma_stays_rooted(base: Seq<Part>, rel: Seq<Part>)
    requires
        is_verbatim(base),
        base.len() > 1,
        base[1] is RootDir,
    ensures
        ({
            let p = resolved(base, rel);
            p.len() > 1 && p[0] == base[0] && p[1] is RootDir && rooted(p) == p
        }),
    decreases rel.len(),
{
    if rel.len() > 0 {
        lemma_stays_rooted(base, rel.drop_last());
    }
}

/// The next component of a path stands behind those before it when it is joined to them.
#[verifier::spinoff_prover]
#[verifier::rlimit(40)]
proof fn lemma_next_component(base: Written, parts: Seq<Part>, platform: Platform)
    requires
        parts.len() > 0,
        in_normal_form(parts),
        is_verbatim(parts) ==> is_free_of_dots(parts),
        base.parts() == parts.drop_last(),
    ensures
        joined(base, lone(parts.last(), platform)).parts() == parts,
        joined(base, lone(parts.last(), platform)).platform == base.platform,
{
    let front = parts.drop_last();
    let last = parts.last();
    let rel = lone(last, platform);
    let r = rel.parts();
    assert(r =~= seq![last]);
    assert(parts[parts.len() - 1] == last);
    assert(front.len() > 0 ==> front[0] == parts[0]);
    assert(front.len() > 0 ==> drive(front).len() == drive(parts).len() && is_verbatim(front)
        == is_verbatim(parts));
    lemma_joined_parts(base, rel);
    assert(joined(base, rel).parts() == joined_parts(front, r));
    assert(front + r =~= parts);
    if front.len() == 0 {
        assert(drive(front) =~= front);
    } else if is_verbatim(front) {
        assert(r.drop_last() =~= Seq::empty());
        assert(resolved(front, Seq::empty()) == front);
        assert(parts[1] is RootDir);
        if last is RootDir {
            assert(front.take(1) =~= front);
        }
        assert(front.push(last) =~= parts);
        assert(resolved(front, r) =~= parts);
    } else if last is RootDir {
        assert(drive(front) =~= front);
    }
}

/// A path that is written afresh has the components it was made of, and joining them one after the
/// other gives the same components. Left out are `.` and `..` behind a verbatim prefix.
pub proof fn law_paths_are_made_of_their_components(parts: Seq<Part>, platform: Platform)
    requires
        in_normal_form(parts),
        is_verbatim(parts) ==> is_free_of_dots(parts),
    ensures
        plain(parts, platform).parts() == parts,
        plain(parts, platform).platform == platform,
        collected(parts, platform).parts() == parts,
        collected(parts, platform).platform == platform,
    decreases parts.len(),
{
    assert(plain(parts, platform).parts() =~= parts);
    if parts.len() > 0 {
        let front = parts.drop_last();
        assert(forall|i: int| 0 <= i < front.len() ==> front[i] == parts[i]);
        assert(front.len() > 0 ==> drive(front).len() == drive(parts).len() && is_verbatim(front)
            == is_verbatim(parts));
        assert(in_normal_form(front));
        assert(is_verbatim(front) ==> is_free_of_dots(front));
        law_paths_are_made_of_their_components(front, platform);
        lemma_next_component(collected(front, platform), parts, platform);
    } else {
        assert(collected(parts, platform).parts() =~= parts);
    }
}

/// A component that is written afresh behind others is set off by one separator, `\\` on Windows and
/// `/` elsewhere, unless a root or a bare drive stands before it. A root is nothing but a separator.
pub proof fn law_components_written_afresh_are_separated(
    parts: Seq<Part>,
    part: Part,
    platform: Platform,
)
    ensures
        ({
            let separator = if platform is Windows {
                seq![92u8]
            } else {
                seq![47u8]
            };
            let set_off = part is RootDir || (parts.len() > 0 && match parts.last() {
                Part::RootDir => false,
                Part::Prefix(b) => b.len() != 2 || b[1] != 58,
                _ => true,
            });
            plain(parts.push(part), platform).text() == plain(parts, platform).text() + (if set_off {
                separator
            } else {
                Seq::empty()
            }) + (match part {
                Part::Prefix(b) => b,
                Part::RootDir => Seq::empty(),
                Part::CurDir => seq![46u8],
                Part::ParentDir => seq![46u8, 46u8],
                Part::Normal(b) => b,
            })
        }),
        plain(Seq::empty(), platform).text().len() == 0,
{
    let all = parts.push(part);
    let p = plain(all, platform);
    let front = plain(parts, platform);
    assert(p.pieces.drop_last() =~= front.pieces) by {
        assert forall|i: int| 0 <= i < parts.len() implies p.pieces.drop_last()[i]
            == front.pieces[i] by {
            assert(all[i] == parts[i]);
            assert(i > 0 ==> all[i - 1] == parts[i - 1]);
        }
    }
    assert(p.pieces.last() == WrittenPart {
        gap: plain_gap(all, parts.len() as int, platform),
        part,
    });
    assert(parts.len() > 0 ==> all[parts.len() - 1] == parts.last());
    assert(front.text() =~= pieces_text(front.pieces));
    assert(p.text() =~= pieces_text(p.pieces));
}

/// The text of a path is made of the text of its components, what separates them, and what stands
/// behind them, in order.
pub proof fn law_text_is_made_of_the_components(pieces: Seq<WrittenPart>, piece: WrittenPart)
    ensures
        pieces_text(Seq::<WrittenPart>::empty()).len() == 0,
        pieces_text(pieces.push(piece)) == pieces_text(pieces) + piece.gap + (match piece.part {
            Part::Prefix(b) => b,
            Part::RootDir => Seq::empty(),
            Part::CurDir => seq![46u8],
            Part::ParentDir => seq![46u8, 46u8],
            Part::Normal(b) => b,
        }),
        forall|after: Seq<u8>, platform: Platform|
            (#[trigger] (Written { pieces, after, platform }).text()) == pieces_text(pieces) + after,
{
    assert(pieces.push(piece).drop_last() =~= pieces);
}

/// A surrogate is encoded in the three bytes from `i` on.
pub open spec fn has_surrogate_at(b: Seq<u8>, i: int) -> bool {
    0 <= i && i + 3 <= b.len() && b[i] == 0xed && b[i + 1] >= 0xa0
}

/// Replacing surrogates leaves no encoded surrogate, keeps the length, and changes no byte outside of
/// one: where there is none, nothing changes.
pub proof fn law_only_surrogates_are_replaced(b: Seq<u8>)
    ensures
        without_surrogates(b).len() == b.len(),
        forall|i: int| !(#[trigger] has_surrogate_at(without_surrogates(b), i)),
        (forall|i: int| !(#[trigger] has_surrogate_at(b, i))) ==> without_surrogates(b) == b,
    decreases b.len(),
{
    let r = without_surrogates(b);
    if has_surrogate_at(b, 0) {
        let rest = without_surrogates(b.skip(3));
        law_only_surrogates_are_replaced(b.skip(3));
        assert(r == seq![0xefu8, 0xbfu8, 0xbdu8] + rest);
        assert forall|i: int| !(#[trigger] has_surrogate_at(r, i)) by {
            if i >= 3 {
                assert(!has_surrogate_at(rest, i - 3));
            }
        }
    } else if b.len() > 0 {
        let s = b.skip(1);
        let rest = without_surrogates(s);
        law_only_surrogates_are_replaced(s);
        assert(r == seq![b[0]] + rest);
        assert(b.len() >= 2 && b[1] != 0xed ==> rest[0] == b[1]);
        assert forall|i: int| !(#[trigger] has_surrogate_at(r, i)) by {
            if i >= 1 {
                assert(!has_surrogate_at(rest, i - 1));
            }
        }
        if forall|i: int| !(#[trigger] has_surrogate_at(b, i)) {
            assert forall|i: int| !(#[trigger] has_surrogate_at(s, i)) by {
                assert(!has_surrogate_at(b, i + 1));
            }
            assert(r =~= b);
        }
    }
}

/// A surrogate becomes a replacement character, and what stands before and behind it is treated as it
/// would be without it.
pub proof fn law_surrogates_become_replacement_characters(a: Seq<u8>, c: Seq<u8>, x: u8, y: u8)
    requires
        x >= 0xa0,
        forall|i: int| 0 <= i < a.len() ==> #[trigger] a[i] != 0xed,
    ensures
        without_surrogates(a + seq![0xedu8, x, y] + c) == a + seq![0xefu8, 0xbfu8, 0xbdu8]
            + without_surrogates(c),
    decreases a.len(),
{
    let whole = a + seq![0xedu8, x, y] + c;
    if a.len() == 0 {
        assert(whole.skip(3) =~= c);
        assert(whole[0] == 0xed && whole[1] == x);
        assert(without_surrogates(whole) =~= a + seq![0xefu8, 0xbfu8, 0xbdu8] + without_surrogates(c));
    } else {
        let rest = a.skip(1);
        assert(forall|i: int| 0 <= i < rest.len() ==> rest[i] == a[i + 1]);
        law_surrogates_become_replacement_characters(rest, c, x, y);
        assert(whole.skip(1) =~= rest + seq![0xedu8, x, y] + c);
        assert(whole[0] == a[0]);
        assert(without_surrogates(whole) =~= a + seq![0xefu8, 0xbfu8, 0xbdu8] + without_surrogates(c));
    }
}

/// UTF-8 encodes no surrogates.
proof fn lemma_no_surrogates_in_utf8(b: Seq<u8>)
    requires
        vstd::utf8::valid_utf8(b),
    ensures
        forall|i: int| !(#[trigger] has_surrogate_at(b, i)),
    decreases b.len(),
{
    if b.len() > 0 {
        let n = vstd::utf8::length_of_first_scalar(b);
        let rest = vstd::utf8::pop_first_scalar(b);
        lemma_no_surrogates_in_utf8(rest);
        assert forall|i: int| !(#[trigger] has_surrogate_at(b, i)) by {
            if i >= n {
                assert(!has_surrogate_at(rest, i - n));
            } else if i == 0 && b.len() >= 3 && b[0] == 0xed && b[1] >= 0xa0 {
                let x = b[0];
                let y = b[1];
                let z = b[2];
                assert(0xd800 <= (((x & 0x0f) as u32) << 12) | (((y & 0x3f) as u32) << 6) | ((z
                    & 0x3f) as u32) <= 0xdfff) by (bit_vector)
                    requires
                        x == 0xed,
                        0xa0 <= y <= 0xbf,
                ;
            }
        }
    }
}

/// A path that is written in UTF-8 is shown as the characters that it was written in, on every
/// platform, and nothing but its text matters.
pub proof fn law_paths_are_shown_as_written(p: Written)
    requires
        vstd::utf8::valid_utf8(p.text()),
    ensures
        displayed(p) == vstd::utf8::decode_utf8(p.text()),
{
    lemma_no_surrogates_in_utf8(p.text());
    law_only_surrogates_are_replaced(p.text());
}

/// Where a path is not written in UTF-8, what is shown of it is what is made of its bytes; on
/// Windows, of its bytes without surrogates.
pub proof fn law_other_paths_are_shown_as_near_as_can_be(p: Written)
    ensures
        p.platform is Other && !vstd::utf8::valid_utf8(p.text()) ==> displayed(p) == lossy_utf8(
            p.text(),
        ),
        p.platform is Windows && !vstd::utf8::valid_utf8(without_surrogates(p.text()))
            ==> displayed(p) == lossy_utf8(without_surrogates(p.text())),
{
}

/// Behind a verbatim prefix everything is written afresh.
pub proof fn law_verbatim_paths_are_written_afresh(base: Written, rel: Written)
    requires
        is_verbatim(base.parts()),
        rel.pieces.len() > 0,
        !(rel.pieces[0].part is Prefix),
    ensures
        joined(base, rel) == plain(joined(base, rel).parts(), base.platform),
{
    let parts = rooted(resolved(base.parts(), rel.parts()));
    assert(plain(parts, base.platform).parts() =~= parts);
}

/// A verbatim prefix that stands alone gets its root with the first name behind it.
pub proof fn law_names_behind_a_verbatim_prefix_get_a_root(
    base: Written,
    rel: Written,
    name: Seq<u8>,
)
    requires
        is_verbatim(base.parts()),
        base.pieces.len() == 1,
        rel.parts() == seq![Part::Normal(name)],
    ensures
        joined(base, rel).parts() == seq![base.pieces[0].part, Part::RootDir, Part::Normal(name)],
{
    let b = base.parts();
    let r = rel.parts();
    lemma_joined_parts(base, rel);
    assert(b.len() == 1 && b[0] == base.pieces[0].part);
    assert(r.len() == rel.pieces.len());
    assert(r.drop_last() =~= Seq::empty());
    assert(resolved(b, Seq::empty()) == b);
    assert(resolved(b, r) == b.push(Part::Normal(name)));
    assert(joined(base, rel).parts() =~= seq![
        base.pieces[0].part,
        Part::RootDir,
        Part::Normal(name),
    ]);
}

proof fn lemma_nothing_to_settle(pieces: Seq<WrittenPart>)
    requires
        settled(pieces).0.len() == pieces.len(),
    ensures
        settled(pieces).0 == pieces,
        settled(pieces).1.len() == 0,
    decreases pieces.len(),
{
    if pieces.len() > 0 {
        let front = pieces.drop_last();
        lemma_settled_is_no_longer(front);
        lemma_nothing_to_settle(front);
        assert(settled(front).1 + pieces.last().gap =~= pieces.last().gap);
    }
    assert(settled(pieces).0 =~= pieces);
}

proof fn lemma_settled_is_no_longer(pieces: Seq<WrittenPart>)
    ensures
        settled(pieces).0.len() <= pieces.len(),
    decreases pieces.len(),
{
    if pieces.len() > 0 {
        lemma_settled_is_no_longer(pieces.drop_last());
    }
}

/// What is left of a path is written as it was, from its first component to its last: nothing stands
/// before or behind it any more. Left out are `.` and `..` behind a verbatim prefix.
pub proof fn law_strip_cuts_between_components(p: Written, base: Written)
    requires
        in_normal_form(p.parts()),
        starts_with(p, base),
        is_verbatim(p.parts()) ==> is_free_of_dots(p.parts().skip(base.pieces.len() as int)),
    ensures
        ({
            let rest = stripped(p, base);
            let n = base.pieces.len() as int;
            &&& rest.pieces.len() == p.pieces.len() - n
            &&& forall|i: int|
                0 < i < rest.pieces.len() ==> #[trigger] rest.pieces[i] == p.pieces[n + i]
            &&& rest.pieces.len() > 0 && n > 0 && !(rest.pieces[0].part is RootDir)
                ==> rest.pieces[0].gap.len() == 0
            &&& rest.pieces.len() > 0 && (n == 0 || rest.pieces[0].part is RootDir)
                ==> rest.pieces[0] == p.pieces[n]
        }),
{
    let n = base.pieces.len() as int;
    law_strip_leaves_the_rest(p, base);
    law_leading_components_decide(p, base);
    let rest = stripped(p, base);
    assert(rest.parts().len() == rest.pieces.len());
    assert(p.parts().len() == p.pieces.len());
    lemma_nothing_to_settle(tail_pieces(p, n));
}

/// Two paths are the same exactly if they have as many components and each is the same as its
/// counterpart, however they are written.
pub proof fn law_same_paths_have_the_same_components(p: Seq<Part>, q: Seq<Part>)
    ensures
        path_key(p) == path_key(q) <==> p.len() == q.len() && forall|i: int|
            0 <= i < p.len() ==> part_key(#[trigger] p[i]) == part_key(q[i]),
{
    assert(path_key(p).len() == p.len() && path_key(q).len() == q.len());
    if path_key(p) == path_key(q) {
        assert forall|i: int| 0 <= i < p.len() implies part_key(#[trigger] p[i]) == part_key(
            q[i],
        ) by {
            assert(path_key(p)[i] == path_key(q)[i]);
        }
    } else if p.len() == q.len() && (forall|i: int|
        0 <= i < p.len() ==> part_key(#[trigger] p[i]) == part_key(q[i])) {
        assert(path_key(p) =~= path_key(q));
    }
}

/// A verbatim prefix that stands alone gets its root when nothing is joined to it, unless it ends in
/// a separator already.
pub proof fn law_nothing_behind_a_verbatim_prefix_is_its_root(base: Written, rel: Written)
    requires
        is_verbatim(base.parts()),
        base.pieces.len() == 1,
        base.after.len() == 0,
        rel.pieces.len() == 0,
    ensures
        ({
            let last = base.text().last();
            let ends = last == 47 || (base.platform is Windows && last == 92);
            joined(base, rel).parts() == if ends {
                base.parts()
            } else {
                base.parts().push(Part::RootDir)
            }
        }),
{
    lemma_joined_parts(base, rel);
    let piece = base.pieces[0];
    assert(base.pieces =~= seq![piece]);
    lemma_one_piece_text(piece);
    assert(base.parts()[0] == piece.part);
    assert(base.text() =~= piece.gap + piece.part->Prefix_0);
    assert(base.text().last() == piece.part->Prefix_0.last());
}

/// A root that goes without saying, as behind a share, is written down as soon as something stands
/// behind it: the separator is the root's, and not a part of what follows.
pub proof fn law_implied_roots_are_written_down(base: Written, rel: Written)
    requires
        !is_verbatim(base.parts()),
        base.pieces.len() > 0,
        base.pieces.last().part is RootDir,
        base.pieces.last().gap.len() == 0,
        base.after.len() == 0,
        base.text().len() > 0,
        base.text().last() != 47,
        base.platform is Windows ==> base.text().last() != 92,
        rel.pieces.len() > 0,
        rel.pieces[0].part is Normal || rel.pieces[0].part is ParentDir,
    ensures
        ({
            let n = base.pieces.len() as int;
            let whole = joined(base, rel);
            &&& whole.pieces.len() == n + rel.pieces.len()
            &&& whole.pieces[n - 1].part is RootDir
            &&& whole.pieces[n - 1].gap == if base.platform is Windows {
                seq![92u8]
            } else {
                seq![47u8]
            }
            &&& whole.pieces[n].gap == rel.pieces[0].gap
        }),
{
    let n = base.pieces.len() as int;
    let o = opened(base);
    assert(needs_separator(base)) by {
        if n == 1 {
            assert(base.pieces[0] == base.pieces.last());
        }
    }
    assert(base.parts().len() == n && base.parts()[n - 1] is RootDir);
    assert(!opens_root(base));
    assert(o.after + rel.pieces[0].gap =~= rel.pieces[0].gap);
    assert(o.pieces.len() == n);
}

} // verus!
