//! Flat JSON objects on one line, made of keys and rendered values.

use vstd::prelude::*;
use vstd::string::StringExecFns;

verus! {

/// `"key":value`.
pub open spec fn json_pair(f: (Seq<char>, Seq<char>)) -> Seq<char> {
    "\""@ + f.0 + "\":"@ + f.1
}

/// The pairs with commas between them.
pub open spec fn json_pairs(fs: Seq<(Seq<char>, Seq<char>)>) -> Seq<char>
    decreases fs.len(),
{
    if fs.len() == 0 {
        Seq::empty()
    } else if fs.len() == 1 {
        json_pair(fs[0])
    } else {
        json_pairs(fs.drop_last()) + ","@ + json_pair(fs.last())
    }
}

/// The object on one line.
pub open spec fn json_line(fs: Seq<(Seq<char>, Seq<char>)>) -> Seq<char> {
    "{"@ + json_pairs(fs) + "}"@
}

/// The text stands between the two others.
pub open spec fn framed(before: Seq<char>, text: Seq<char>, behind: Seq<char>) -> Seq<char> {
    before + text + behind
}

/// The line has the field: the key in quotes, a colon and the value, between two of
/// the braces and commas of the object.
pub open spec fn shows_field(line: Seq<char>, key: Seq<char>, value: Seq<char>) -> bool {
    exists|before: Seq<char>, behind: Seq<char>|
        {
            &&& line == #[trigger] framed(before, "\""@ + key + "\":"@ + value, behind)
            &&& before.len() > 0 && (before.last() == '{' || before.last() == ',')
            &&& behind.len() > 0 && (behind[0] == '}' || behind[0] == ',')
        }
}

/// The pairs around one of them.
proof fn lemma_pair_at(fs: Seq<(Seq<char>, Seq<char>)>, i: int) -> (r: (Seq<char>, Seq<char>))
    requires
        0 <= i < fs.len(),
    ensures
        json_pairs(fs) == framed(r.0, json_pair(fs[i]), r.1),
        r.0.len() == 0 || r.0.last() == ',',
        r.1.len() == 0 || r.1[0] == ',',
    decreases fs.len(),
{
    reveal_strlit(",");
    let none = Seq::<char>::empty();
    let front = fs.drop_last();
    if fs.len() == 1 {
        assert(json_pairs(fs) =~= framed(none, json_pair(fs[i]), none));
        (none, none)
    } else if i == fs.len() - 1 {
        let before = json_pairs(front) + ","@;
        assert(json_pairs(fs) =~= framed(before, json_pair(fs[i]), none));
        (before, none)
    } else {
        let (before, rest) = lemma_pair_at(front, i);
        let behind = rest + ","@ + json_pair(fs.last());
        assert(front[i] == fs[i]);
        assert(json_pairs(fs) =~= framed(before, json_pair(fs[i]), behind));
        if rest.len() == 0 {
            assert(behind[0] == ","@[0]);
        } else {
            assert(behind[0] == rest[0]);
        }
        (before, behind)
    }
}

/// A line shows every one of its fields.
pub proof fn line_shows_every_field(fs: Seq<(Seq<char>, Seq<char>)>, i: int)
    requires
        0 <= i < fs.len(),
    ensures
        shows_field(json_line(fs), fs[i].0, fs[i].1),
{
    reveal_strlit("{");
    reveal_strlit("}");
    let (a, b) = lemma_pair_at(fs, i);
    let before = "{"@ + a;
    let behind = b + "}"@;
    assert(json_line(fs) =~= framed(before, "\""@ + fs[i].0 + "\":"@ + fs[i].1, behind));
    if a.len() == 0 {
        assert(before.last() == '{');
    } else {
        assert(before.last() == a.last());
    }
    if b.len() == 0 {
        assert(behind[0] == '}');
    } else {
        assert(behind[0] == b[0]);
    }
}

/// Keys and rendered values, in order.
pub struct Fields {
    pub items: Vec<(String, String)>,
}

impl View for Fields {
    type V = Seq<(Seq<char>, Seq<char>)>;

    open spec fn view(&self) -> Seq<(Seq<char>, Seq<char>)> {
        self.items@.map_values(|f: (String, String)| (f.0@, f.1@))
    }
}

impl Fields {
    /// No fields.
    pub fn new() -> (r: Self)
        ensures
            r@ == Seq::<(Seq<char>, Seq<char>)>::empty(),
    {
        let r = Fields { items: Vec::new() };
        assert(r@ =~= Seq::<(Seq<char>, Seq<char>)>::empty());
        r
    }

    /// Adds a field.
    pub fn put(&mut self, key: String, value: String)
        ensures
            final(self)@ == old(self)@.push((key@, value@)),
    {
        self.items.push((key, value));
        assert(self@ =~= old(self)@.push((key@, value@)));
    }

    /// The object on one line.
    pub fn line(&self) -> (r: String)
        ensures
            r@ == json_line(self@),
    {
        let mut out = String::from_str("{");
        let mut i: usize = 0;
        assert(self@.subrange(0, 0) =~= Seq::<(Seq<char>, Seq<char>)>::empty());
        assert(out@ =~= "{"@ + json_pairs(self@.subrange(0, 0)));
        while i < self.items.len()
            invariant
                i <= self.items.len() == self@.len(),
                out@ == "{"@ + json_pairs(self@.subrange(0, i as int)),
            decreases self.items.len() - i,
        {
            let ghost done = self@.subrange(0, i as int);
            let ghost next = self@.subrange(0, i + 1);
            let f = &self.items[i];
            if i > 0 {
                out.append(",");
            }
            out.append("\"");
            out.append(f.0.as_str());
            out.append("\":");
            out.append(f.1.as_str());
            proof {
                assert(next.drop_last() =~= done);
                assert(next.last() == (f.0@, f.1@));
                if i > 0 {
                    assert(out@ =~= "{"@ + (json_pairs(done) + ","@ + json_pair(next.last())));
                } else {
                    assert(json_pairs(done) =~= Seq::<char>::empty());
                    assert(out@ =~= "{"@ + json_pair(next[0]));
                }
            }
            i += 1;
        }
        assert(self@.subrange(0, i as int) =~= self@);
        out.append("}");
        out
    }
}

} // verus!
