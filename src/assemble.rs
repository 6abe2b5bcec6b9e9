//! Joining the lines of several files into one, header file first, and how
//! the joined file decodes.
use vstd::prelude::*;
use crate::decode::{Pixel, decoded_spec, rows_filled, rows_spec};
use crate::export::{body_view, file_header_spec};
use crate::header::{FileHeader, header_spec, lines_view};
use crate::normalize::NormMode;

verus! {

/// The lines of each file, one file after another.
pub open spec fn joined(files: Seq<Seq<Seq<char>>>) -> Seq<Seq<char>>
    decreases files.len(),
{
    if files.len() == 0 {
        seq![]
    } else {
        joined(files.drop_last()) + files.last()
    }
}

/// The pixels of each body decoded on its own, one body after another.
pub open spec fn joined_pixels(h: FileHeader, mode: NormMode, bodies: Seq<Seq<Seq<char>>>) -> Seq<
    Pixel,
>
    decreases bodies.len(),
{
    if bodies.len() == 0 {
        seq![]
    } else {
        joined_pixels(h, mode, bodies.drop_last()) + decoded_spec(h, mode, bodies.last())
    }
}

/// The lines of each file in `files`.
pub open spec fn files_view(files: Seq<Vec<String>>) -> Seq<Seq<Seq<char>>> {
    files.map_values(|f: Vec<String>| lines_view(f@))
}

/// Joins the lines of `files` in order, as one file.
pub fn concat_files(files: &Vec<Vec<String>>) -> (r: Vec<String>)
    ensures
        lines_view(r@) == joined(files_view(files@)),
{
    let ghost fv = files_view(files@);
    let mut out: Vec<String> = Vec::new();
    let mut i: usize = 0;
    while i < files.len()
        invariant
            i <= files.len(),
            fv == files_view(files@),
            lines_view(out@) == joined(fv.take(i as int)),
        decreases files.len() - i,
    {
        let ghost before = lines_view(out@);
        let f = &files[i];
        let mut j: usize = 0;
        while j < f.len()
            invariant
                j <= f.len(),
                lines_view(out@) == before + lines_view(f@).take(j as int),
            decreases f.len() - j,
        {
            let ghost prev = out@;
            let s = f[j].clone();
            out.push(s);
            assert(lines_view(out@) =~= lines_view(prev).push(f@[j as int]@));
            j = j + 1;
            assert(lines_view(out@) =~= before + lines_view(f@).take(j as int));
        }
        proof {
            assert(fv.take(i as int + 1).drop_last() =~= fv.take(i as int));
            assert(lines_view(f@).take(j as int) =~= lines_view(f@));
        }
        i = i + 1;
    }
    assert(fv.take(i as int) =~= fv);
    out
}

/// Rows of consecutive line runs decode to consecutive pixel runs.
pub proof fn lemma_rows_concat(h: FileHeader, mode: NormMode, a: Seq<Seq<char>>, b: Seq<Seq<char>>)
    ensures
        rows_spec(h, mode, a + b) == rows_spec(h, mode, a) + rows_spec(h, mode, b),
    decreases b.len(),
{
    if b.len() == 0 {
        assert(a + b =~= a);
        assert(rows_spec(h, mode, b) =~= seq![]);
        assert(rows_spec(h, mode, a) + rows_spec(h, mode, b) =~= rows_spec(h, mode, a));
    } else {
        lemma_rows_concat(h, mode, a, b.drop_last());
        assert((a + b).drop_last() =~= a + b.drop_last());
        assert((a + b).last() == b.last());
        assert(rows_spec(h, mode, a + b) =~= rows_spec(h, mode, a) + rows_spec(h, mode, b));
    }
}

proof fn lemma_decoded_whole(h: FileHeader, mode: NormMode, body: Seq<Seq<char>>)
    requires
        body.len() <= h.height,
    ensures
        decoded_spec(h, mode, body) == rows_spec(h, mode, body),
{
    assert(rows_filled(h, body.len() as int) == body.len());
    assert(body.take(body.len() as int) =~= body);
}

proof fn lemma_joined_rows(h: FileHeader, mode: NormMode, bodies: Seq<Seq<Seq<char>>>)
    requires
        joined(bodies).len() <= h.height,
    ensures
        rows_spec(h, mode, joined(bodies)) == joined_pixels(h, mode, bodies),
    decreases bodies.len(),
{
    if bodies.len() > 0 {
        let init = bodies.drop_last();
        assert(joined(init).len() <= joined(bodies).len());
        lemma_joined_rows(h, mode, init);
        lemma_rows_concat(h, mode, joined(init), bodies.last());
        lemma_decoded_whole(h, mode, bodies.last());
    }
}

/// Joining a two-line header file with body files and decoding the result
/// gives the same header, and the same pixels as decoding each body on its
/// own under that header and putting their pixels one after another, as long
/// as the bodies hold no more lines in all than the header declares rows.
pub proof fn lemma_join_then_decode(
    header: Seq<Seq<char>>,
    bodies: Seq<Seq<Seq<char>>>,
    mode: NormMode,
)
    requires
        header.len() == 2,
        file_header_spec(header) is Ok,
        joined(bodies).len() <= file_header_spec(header)->Ok_0.height,
    ensures
        file_header_spec(joined(seq![header] + bodies)) == file_header_spec(header),
        decoded_spec(
            file_header_spec(header)->Ok_0,
            mode,
            body_view(joined(seq![header] + bodies)),
        ) == joined_pixels(file_header_spec(header)->Ok_0, mode, bodies),
{
    let h = file_header_spec(header)->Ok_0;
    let all = seq![header] + bodies;
    lemma_joined_prefix(header, bodies);
    let file = joined(all);
    assert(file[0] == header[0] && file[1] == header[1]);
    assert(header_spec(file) == header_spec(header));
    assert(body_view(file) =~= joined(bodies));
    lemma_decoded_whole(h, mode, joined(bodies));
    lemma_joined_rows(h, mode, bodies);
}

/// The file joined from a header file and bodies is the header's lines, then
/// the bodies' lines.
proof fn lemma_joined_prefix(header: Seq<Seq<char>>, bodies: Seq<Seq<Seq<char>>>)
    ensures
        joined(seq![header] + bodies) == header + joined(bodies),
    decreases bodies.len(),
{
    if bodies.len() == 0 {
        let one = seq![header];
        assert(one + bodies =~= one);
        assert(one.drop_last() =~= Seq::<Seq<Seq<char>>>::empty());
        assert(joined(one.drop_last()) =~= seq![]);
        assert(joined(one) =~= header);
        assert(header + joined(bodies) =~= header);
    } else {
        lemma_joined_prefix(header, bodies.drop_last());
        assert((seq![header] + bodies).drop_last() =~= seq![header] + bodies.drop_last());
        assert((seq![header] + bodies).last() == bodies.last());
        assert(joined(seq![header] + bodies) =~= header + joined(bodies));
    }
}

} // verus!
