//! Tag lists of a log entry and their comma-joined text form.

use vstd::prelude::*;

verus! {

/// The comma-separated segments of `s`, empty ones included, in order.
/// A text without any comma has exactly one segment: itself.
pub open spec fn segments(s: Seq<char>) -> Seq<Seq<char>>
    decreases s.len(),
{
    if s.len() == 0 {
        seq![Seq::empty()]
    } else {
        let init = segments(s.drop_last());
        if s.last() == ',' {
            init.push(Seq::empty())
        } else {
            init.update(init.len() - 1, init.last().push(s.last()))
        }
    }
}

/// The non-empty elements of `segs`, in order.
pub open spec fn non_empty(segs: Seq<Seq<char>>) -> Seq<Seq<char>>
    decreases segs.len(),
{
    if segs.len() == 0 {
        Seq::empty()
    } else {
        let kept = non_empty(segs.drop_last());
        if segs.last().len() > 0 {
            kept.push(segs.last())
        } else {
            kept
        }
    }
}

/// The tags that a comma-joined text stands for: its non-empty segments.
pub open spec fn parse_tags(s: Seq<char>) -> Seq<Seq<char>> {
    non_empty(segments(s))
}

/// The tags joined with a single comma between neighbours.
pub open spec fn join_tags(t: Seq<Seq<char>>) -> Seq<char>
    decreases t.len(),
{
    if t.len() == 0 {
        Seq::empty()
    } else if t.len() == 1 {
        t[0]
    } else {
        join_tags(t.drop_last()) + seq![','] + t.last()
    }
}

/// A tag as parsing can produce it: not empty, and free of commas.
pub open spec fn is_plain_tag(t: Seq<char>) -> bool {
    t.len() > 0 && !t.contains(',')
}

/// Every tag of `t` is plain.
pub open spec fn all_plain(t: Seq<Seq<char>>) -> bool {
    forall|i: int| 0 <= i < t.len() ==> #[trigger] is_plain_tag(t[i])
}

/// Appending comma-free text to `x` extends the last segment of `x`.
proof fn lemma_segments_extend(x: Seq<char>, y: Seq<char>)
    requires
        !y.contains(','),
    ensures
        segments(x + y) == segments(x).update(
            segments(x).len() - 1,
            segments(x).last() + y,
        ),
        segments(x).len() > 0,
    decreases y.len(),
{
    lemma_segments_nonempty(x);
    if y.len() == 0 {
        assert(x + y =~= x);
        assert(segments(x).last() + y =~= segments(x).last());
        assert(segments(x).update(segments(x).len() - 1, segments(x).last()) =~= segments(x));
    } else {
        let y0 = y.drop_last();
        assert(!y0.contains(',')) by {
            if y0.contains(',') {
                let k = choose|k: int| 0 <= k < y0.len() && y0[k] == ',';
                assert(y[k] == ',');
            }
        }
        lemma_segments_extend(x, y0);
        assert((x + y).drop_last() =~= x + y0);
        assert(y.last() != ',') by {
            assert(y[y.len() - 1] == y.last());
        }
        assert(segments(x).last() + y0 + seq![y.last()] =~= segments(x).last() + y);
        assert((x + y).last() == y.last());
        let init = segments(x + y0);
        let n = segments(x).len() - 1;
        assert(init.len() == segments(x).len());
        assert(init.last() == segments(x).last() + y0);
        assert(init.last().push(y.last()) =~= segments(x).last() + y);
        assert(segments(x + y) == init.update(n, init.last().push(y.last())));
        assert(segments(x + y) =~= segments(x).update(
            segments(x).len() - 1,
            segments(x).last() + y,
        ));
    }
}

/// Every text has at least one segment.
proof fn lemma_segments_nonempty(x: Seq<char>)
    ensures
        segments(x).len() > 0,
    decreases x.len(),
{
    if x.len() > 0 {
        lemma_segments_nonempty(x.drop_last());
    }
}

/// No segment holds a comma.
proof fn lemma_segments_comma_free(x: Seq<char>)
    ensures
        forall|i: int| 0 <= i < segments(x).len() ==> !(#[trigger] segments(x)[i]).contains(','),
    decreases x.len(),
{
    if x.len() > 0 {
        let x0 = x.drop_last();
        lemma_segments_comma_free(x0);
        lemma_segments_nonempty(x0);
        if x.last() != ',' {
            let init = segments(x0);
            let grown = init.last().push(x.last());
            assert(!grown.contains(',')) by {
                if grown.contains(',') {
                    let k = choose|k: int| 0 <= k < grown.len() && grown[k] == ',';
                    if k < init.last().len() {
                        assert(init.last().contains(','));
                        assert(init[init.len() - 1] == init.last());
                    }
                }
            }
        } else {
            assert forall|i: int| 0 <= i < segments(x).len() implies !(
            #[trigger] segments(x)[i]).contains(',') by {
                if i == segments(x0).len() {
                    assert(segments(x)[i] =~= Seq::<char>::empty());
                }
            }
        }
    }
}

/// Joining comma-free tags and splitting the result again gives the tags back.
proof fn lemma_segments_join(t: Seq<Seq<char>>)
    requires
        t.len() > 0,
        forall|i: int| 0 <= i < t.len() ==> !(#[trigger] t[i]).contains(','),
    ensures
        segments(join_tags(t)) == t,
    decreases t.len(),
{
    let e = Seq::<char>::empty();
    if t.len() == 1 {
        lemma_segments_extend(e, t[0]);
        assert(e + t[0] =~= t[0]);
        assert(segments(e) =~= seq![e]);
        assert(segments(t[0]) =~= t);
    } else {
        let t0 = t.drop_last();
        lemma_segments_join(t0);
        let head = join_tags(t0) + seq![','];
        assert(head.drop_last() =~= join_tags(t0));
        assert(segments(head) == t0.push(e));
        assert(!t.last().contains(',')) by {
            assert(t[t.len() - 1] == t.last());
        }
        lemma_segments_extend(head, t.last());
        assert(e + t.last() =~= t.last());
        assert(segments(join_tags(t)) =~= t);
    }
}

/// Keeping the non-empty elements of a list that has no empty element keeps all of it.
proof fn lemma_non_empty_all(t: Seq<Seq<char>>)
    requires
        forall|i: int| 0 <= i < t.len() ==> (#[trigger] t[i]).len() > 0,
    ensures
        non_empty(t) == t,
    decreases t.len(),
{
    if t.len() > 0 {
        lemma_non_empty_all(t.drop_last());
        assert(t[t.len() - 1] == t.last());
        assert(non_empty(t.drop_last()).push(t.last()) =~= t);
    }
}

/// The kept elements are non-empty and each is an element of the input.
proof fn lemma_non_empty_elements(t: Seq<Seq<char>>)
    ensures
        forall|i: int|
            0 <= i < non_empty(t).len() ==> (#[trigger] non_empty(t)[i]).len() > 0 && exists|
                j: int,
            |
                0 <= j < t.len() && t[j] == non_empty(t)[i],
    decreases t.len(),
{
    if t.len() > 0 {
        let t0 = t.drop_last();
        lemma_non_empty_elements(t0);
        assert forall|i: int| 0 <= i < non_empty(t).len() implies (#[trigger] non_empty(
            t,
        )[i]).len() > 0 && exists|j: int| 0 <= j < t.len() && t[j] == non_empty(t)[i] by {
            if i < non_empty(t0).len() {
                let j = choose|j: int| 0 <= j < t0.len() && t0[j] == non_empty(t0)[i];
                assert(t[j] == non_empty(t)[i]);
            } else {
                assert(t[t.len() - 1] == non_empty(t)[i]);
            }
        }
    }
}

/// Parsing yields plain tags only.
pub proof fn lemma_parse_plain(s: Seq<char>)
    ensures
        all_plain(parse_tags(s)),
{
    lemma_segments_comma_free(s);
    lemma_non_empty_elements(segments(s));
    assert forall|i: int| 0 <= i < parse_tags(s).len() implies #[trigger] is_plain_tag(
        parse_tags(s)[i],
    ) by {
        let j = choose|j: int|
            0 <= j < segments(s).len() && segments(s)[j] == non_empty(segments(s))[i];
    }
}

/// Plain tags survive joining and parsing unchanged.
pub proof fn lemma_parse_join(t: Seq<Seq<char>>)
    requires
        all_plain(t),
    ensures
        parse_tags(join_tags(t)) == t,
{
    if t.len() == 0 {
        assert(segments(Seq::<char>::empty()) =~= seq![Seq::<char>::empty()]);
        let one = seq![Seq::<char>::empty()];
        assert(one.drop_last() =~= Seq::<Seq<char>>::empty());
        assert(one.last().len() == 0);
        assert(non_empty(one) == non_empty(one.drop_last()));
        assert(non_empty(one).len() == 0);
        assert(parse_tags(join_tags(t)) =~= t);
    } else {
        assert forall|i: int| 0 <= i < t.len() implies !(#[trigger] t[i]).contains(',') by {
            assert(is_plain_tag(t[i]));
        }
        lemma_segments_join(t);
        assert forall|i: int| 0 <= i < t.len() implies (#[trigger] t[i]).len() > 0 by {
            assert(is_plain_tag(t[i]));
        }
        lemma_non_empty_all(t);
    }
}

/// Serializing parsed tags and parsing the text again yields the same tags,
/// for every input text.
pub proof fn law_parse_serialize_parse(s: Seq<char>)
    ensures
        parse_tags(join_tags(parse_tags(s))) == parse_tags(s),
{
    lemma_parse_plain(s);
    lemma_parse_join(parse_tags(s));
}

/// An ordered list of tags; order is the order the user gave them in,
/// and duplicates are kept.
pub struct TagSet {
    tags: Vec<String>,
}

impl View for TagSet {
    type V = Seq<Seq<char>>;

    closed spec fn view(&self) -> Seq<Seq<char>> {
        self.tags@.map_values(|t: String| t@)
    }
}

impl TagSet {
    /// No tags.
    pub fn empty() -> (r: TagSet)
        ensures
            r@ == Seq::<Seq<char>>::empty(),
    {
        let r = TagSet { tags: Vec::new() };
        assert(r@ =~= Seq::<Seq<char>>::empty());
        r
    }

    /// Splits `raw` on commas and keeps the non-empty pieces, in order.
    pub fn parse(raw: &str) -> (r: TagSet)
        ensures
            r@ == parse_tags(raw@),
    {
        let n = raw.unicode_len();
        let mut tags: Vec<String> = Vec::new();
        let mut start: usize = 0;
        let mut i: usize = 0;
        let ghost mut done: Seq<Seq<char>> = seq![];
        assert(raw@.take(0) =~= Seq::<char>::empty());
        assert(raw@.subrange(0, 0) =~= Seq::<char>::empty());
        assert(tags@.map_values(|t: String| t@) =~= non_empty(done));
        while i < n
            invariant
                n == raw@.len(),
                start <= i <= n,
                segments(raw@.take(i as int)) == done.push(raw@.subrange(start as int, i as int)),
                tags@.map_values(|t: String| t@) == non_empty(done),
            decreases n - i,
        {
            let c = raw.get_char(i);
            proof {
                assert(raw@.take(i + 1).drop_last() =~= raw@.take(i as int));
                assert(raw@.take(i + 1).last() == c);
            }
            if c == ',' {
                let piece = raw.substring_char(start, i);
                assert(done.push(piece@).drop_last() =~= done);
                if i > start {
                    tags.push(piece.to_string());
                    assert(tags@.map_values(|t: String| t@) =~= non_empty(done.push(piece@)));
                } else {
                    assert(tags@.map_values(|t: String| t@) =~= non_empty(done.push(piece@)));
                }
                proof {
                    done = done.push(piece@);
                }
                start = i + 1;
                assert(raw@.subrange(start as int, start as int) =~= Seq::<char>::empty());
            } else {
                assert(raw@.subrange(start as int, i + 1) =~= raw@.subrange(
                    start as int,
                    i as int,
                ).push(c));
                assert(done.push(raw@.subrange(start as int, i as int)).update(
                    done.len() as int,
                    raw@.subrange(start as int, i + 1),
                ) =~= done.push(raw@.subrange(start as int, i + 1)));
            }
            i = i + 1;
        }
        let piece = raw.substring_char(start, n);
        assert(raw@.take(n as int) =~= raw@);
        assert(done.push(piece@).drop_last() =~= done);
        if n > start {
            tags.push(piece.to_string());
        }
        assert(tags@.map_values(|t: String| t@) =~= non_empty(done.push(piece@)));
        TagSet { tags }
    }

    /// The tags joined with `,`: the form in which they are stored.
    pub fn serialize(&self) -> (r: String)
        ensures
            r@ == join_tags(self@),
    {
        let mut out = String::new();
        let mut i: usize = 0;
        assert(self@.take(0) =~= Seq::<Seq<char>>::empty());
        while i < self.tags.len()
            invariant
                i <= self.tags@.len(),
                self@.len() == self.tags@.len(),
                out@ == join_tags(self@.take(i as int)),
            decreases self.tags@.len() - i,
        {
            assert(self@.take(i + 1).drop_last() =~= self@.take(i as int));
            assert(self@[i as int] == self.tags@[i as int]@);
            if i > 0 {
                out.append(",");
            }
            out.append(self.tags[i].as_str());
            proof {
                reveal_strlit(",");
                if i == 0 {
                    assert(out@ =~= join_tags(self@.take(1)));
                } else {
                    assert(out@ =~= join_tags(self@.take(i + 1)));
                }
            }
            i = i + 1;
        }
        assert(self@.take(i as int) =~= self@);
        out
    }

    /// Builds a tag list from the given tags as they are.
    pub fn from_vec(tags: Vec<String>) -> (r: TagSet)
        ensures
            r@ == tags@.map_values(|t: String| t@),
    {
        TagSet { tags }
    }

    /// The tags, in order.
    pub fn as_vec(&self) -> (r: &Vec<String>)
        ensures
            r@.map_values(|t: String| t@) == self@,
    {
        &self.tags
    }

    /// Whether there are no tags.
    pub fn is_empty(&self) -> (r: bool)
        ensures
            r == (self@.len() == 0),
    {
        self.tags.len() == 0
    }
}

} // verus!
