//! Templated routing fields: a template is a sequence of literal pieces and
//! event-field references, rendered against one metric. A reference to a tag
//! the metric does not carry makes the whole rendering fail, which drops that
//! routing field (never the event).
use vstd::prelude::*;
use vstd::string::StringExecFns;

use crate::event::{spec_tag_value, Metric};

verus! {

/// One piece of a template: literal text, a reference to a metric tag, or a
/// reference to the metric's name.
#[derive(Clone, Debug, PartialEq)]
pub enum TemplatePart {
    Literal(String),
    TagField(String),
    NameField,
}

/// A routing-field template.
#[derive(Clone, Debug, PartialEq)]
pub struct Template {
    pub parts: Vec<TemplatePart>,
}

/// What rendering a sequence of parts against a metric yields: the
/// concatenation of every piece, or nothing when a referenced tag is absent.
pub open spec fn spec_render_parts(
    parts: Seq<TemplatePart>,
    name: Seq<char>,
    tags: Seq<(String, String)>,
) -> Option<Seq<char>>
    decreases parts.len(),
{
    if parts.len() == 0 {
        Some(Seq::empty())
    } else {
        let rest = spec_render_parts(parts.skip(1), name, tags);
        match parts[0] {
            TemplatePart::Literal(s) => match rest {
                Some(r) => Some(s@ + r),
                None => None,
            },
            TemplatePart::TagField(k) => match spec_tag_value(tags, k@) {
                Some(v) => match rest {
                    Some(r) => Some(v@ + r),
                    None => None,
                },
                None => None,
            },
            TemplatePart::NameField => match rest {
                Some(r) => Some(name + r),
                None => None,
            },
        }
    }
}

/// The tag keys a sequence of parts references, in order.
pub open spec fn spec_tag_fields(parts: Seq<TemplatePart>) -> Seq<String>
    decreases parts.len(),
{
    if parts.len() == 0 {
        Seq::empty()
    } else {
        let rest = spec_tag_fields(parts.drop_last());
        match parts.last() {
            TemplatePart::TagField(k) => rest.push(k),
            _ => rest,
        }
    }
}

impl Template {
    pub open spec fn spec_render(&self, metric: Metric) -> Option<Seq<char>> {
        spec_render_parts(self.parts@, metric.name@, metric.tags@)
    }

    /// Renders the template against one metric; an unresolved tag reference
    /// fails the rendering.
    pub fn render(&self, metric: &Metric) -> (r: Option<String>)
        ensures
            match r {
                Some(s) => self.spec_render(*metric) == Some(s@),
                None => self.spec_render(*metric) is None,
            },
    {
        let ghost name = metric.name@;
        let ghost tags = metric.tags@;
        let n = self.parts.len();
        let mut acc = String::new();
        let mut i: usize = 0;
        proof {
            assert(self.parts@.skip(0) =~= self.parts@);
        }
        while i < n
            invariant
                n == self.parts@.len(),
                i <= n,
                name == metric.name@,
                tags == metric.tags@,
                spec_render_parts(self.parts@, name, tags) == match spec_render_parts(
                    self.parts@.skip(i as int),
                    name,
                    tags,
                ) {
                    Some(s) => Some(acc@ + s),
                    None => None::<Seq<char>>,
                },
            decreases n - i,
        {
            proof {
                assert(self.parts@.skip(i as int)[0] == self.parts@[i as int]);
                assert(self.parts@.skip(i as int).skip(1) =~= self.parts@.skip(i + 1));
            }
            let ghost prev = acc@;
            match &self.parts[i] {
                TemplatePart::Literal(s) => {
                    acc.append(s.as_str());
                    proof {
                        assert(acc@ =~= prev + s@);
                    }
                },
                TemplatePart::TagField(k) => {
                    match metric.tag_value(k.as_str()) {
                        Some(v) => {
                            acc.append(v.as_str());
                            proof {
                                assert(acc@ =~= prev + v@);
                            }
                        },
                        None => {
                            return None;
                        },
                    }
                },
                TemplatePart::NameField => {
                    acc.append(metric.name.as_str());
                    proof {
                        assert(acc@ =~= prev + name);
                    }
                },
            }
            i += 1;
            proof {
                if spec_render_parts(self.parts@.skip(i as int), name, tags) is Some {
                    let s = spec_render_parts(self.parts@.skip(i as int), name, tags)->0;
                    assert(prev + (acc@.skip(prev.len() as int) + s) =~= acc@ + s);
                }
            }
        }
        proof {
            assert(self.parts@.skip(n as int) =~= Seq::<TemplatePart>::empty());
            assert(acc@ + Seq::<char>::empty() =~= acc@);
        }
        Some(acc)
    }

    /// The tag keys this template's field references name, in order.
    pub fn get_fields(&self) -> (r: Vec<String>)
        ensures
            r@ == spec_tag_fields(self.parts@),
    {
        let n = self.parts.len();
        let mut out: Vec<String> = Vec::new();
        let mut i: usize = 0;
        proof {
            assert(self.parts@.take(0) =~= Seq::<TemplatePart>::empty());
        }
        while i < n
            invariant
                n == self.parts@.len(),
                i <= n,
                out@ == spec_tag_fields(self.parts@.take(i as int)),
            decreases n - i,
        {
            proof {
                assert(self.parts@.take(i + 1).drop_last() =~= self.parts@.take(i as int));
                assert(self.parts@.take(i + 1).last() == self.parts@[i as int]);
            }
            match &self.parts[i] {
                TemplatePart::TagField(k) => {
                    out.push(k.clone());
                },
                _ => {},
            }
            i += 1;
        }
        proof {
            assert(self.parts@.take(n as int) =~= self.parts@);
        }
        out
    }
}

} // verus!
