//! The filter compiler: typed field selectors and the path predicate
//! compiled from them.
//!
//! A selector is either a fixed system field with its baked-in path, or a
//! free-form data-section entry.  Selectors are joined conjunctively or
//! disjunctively and wrapped as a predicate on the record's top-level
//! element.  Compilation happens once per invocation; the compiled filter
//! is immutable and shared read-only across every record's evaluation.

use vstd::prelude::*;

use crate::casefold::ascii_upper;
use crate::casefold::upper_seq;

verus! {

/// The closed set of system fields a selector can name.
#[derive(Clone, Copy, PartialEq, Eq, Structural)]
pub enum SystemFilterType {
    Provider,
    EventID,
    Level,
    Task,
    Opcode,
    Keywords,
    TimeCreated,
    EventRecordID,
    ActivityID,
    RelatedActivityID,
    ProcessID,
    ThreadID,
    Channel,
    Computer,
    UserID,
}

impl SystemFilterType {
    /// The fixed path of this field below the record's metadata section.
    pub open spec fn spec_xpath_attribute(self) -> Seq<char> {
        match self {
            SystemFilterType::Provider => "Provider/@Name"@,
            SystemFilterType::EventID => "EventID/text()"@,
            SystemFilterType::Level => "Level/text()"@,
            SystemFilterType::Task => "Task/text()"@,
            SystemFilterType::Opcode => "Opcode/text()"@,
            SystemFilterType::Keywords => "Keywords/text()"@,
            SystemFilterType::TimeCreated => "TimeCreated/@SystemTime"@,
            SystemFilterType::EventRecordID => "EventRecordID/text()"@,
            SystemFilterType::ActivityID => "Correlation/@ActivityID"@,
            SystemFilterType::RelatedActivityID => "Correlation/@RelatedActivityID"@,
            SystemFilterType::ProcessID => "Execution/@ProcessID"@,
            SystemFilterType::ThreadID => "Execution/@ThreadID"@,
            SystemFilterType::Channel => "Channel/text()"@,
            SystemFilterType::Computer => "Computer/text()"@,
            SystemFilterType::UserID => "Security/@UserID"@,
        }
    }

    /// The element below the metadata section that holds this field.
    pub open spec fn spec_element_name(self) -> Seq<char> {
        match self {
            SystemFilterType::Provider => "Provider"@,
            SystemFilterType::EventID => "EventID"@,
            SystemFilterType::Level => "Level"@,
            SystemFilterType::Task => "Task"@,
            SystemFilterType::Opcode => "Opcode"@,
            SystemFilterType::Keywords => "Keywords"@,
            SystemFilterType::TimeCreated => "TimeCreated"@,
            SystemFilterType::EventRecordID => "EventRecordID"@,
            SystemFilterType::ActivityID => "Correlation"@,
            SystemFilterType::RelatedActivityID => "Correlation"@,
            SystemFilterType::ProcessID => "Execution"@,
            SystemFilterType::ThreadID => "Execution"@,
            SystemFilterType::Channel => "Channel"@,
            SystemFilterType::Computer => "Computer"@,
            SystemFilterType::UserID => "Security"@,
        }
    }

    /// The attribute of that element holding the field's value, or `None`
    /// when the value is the element's own text content.
    pub open spec fn spec_attr_name(self) -> Option<Seq<char>> {
        match self {
            SystemFilterType::Provider => Some("Name"@),
            SystemFilterType::TimeCreated => Some("SystemTime"@),
            SystemFilterType::ActivityID => Some("ActivityID"@),
            SystemFilterType::RelatedActivityID => Some("RelatedActivityID"@),
            SystemFilterType::ProcessID => Some("ProcessID"@),
            SystemFilterType::ThreadID => Some("ThreadID"@),
            SystemFilterType::UserID => Some("UserID"@),
            _ => None,
        }
    }

    /// The field's name, as shown to the operator.
    pub open spec fn spec_name(self) -> Seq<char> {
        match self {
            SystemFilterType::Provider => "Provider"@,
            SystemFilterType::EventID => "EventID"@,
            SystemFilterType::Level => "Level"@,
            SystemFilterType::Task => "Task"@,
            SystemFilterType::Opcode => "Opcode"@,
            SystemFilterType::Keywords => "Keywords"@,
            SystemFilterType::TimeCreated => "TimeCreated"@,
            SystemFilterType::EventRecordID => "EventRecordID"@,
            SystemFilterType::ActivityID => "ActivityID"@,
            SystemFilterType::RelatedActivityID => "RelatedActivityID"@,
            SystemFilterType::ProcessID => "ProcessID"@,
            SystemFilterType::ThreadID => "ThreadID"@,
            SystemFilterType::Channel => "Channel"@,
            SystemFilterType::Computer => "Computer"@,
            SystemFilterType::UserID => "UserID"@,
        }
    }

    /// The field's name, as shown to the operator.
    pub fn name(&self) -> (r: &str)
        ensures
            r@ == self.spec_name(),
    {
        match self {
            SystemFilterType::Provider => "Provider",
            SystemFilterType::EventID => "EventID",
            SystemFilterType::Level => "Level",
            SystemFilterType::Task => "Task",
            SystemFilterType::Opcode => "Opcode",
            SystemFilterType::Keywords => "Keywords",
            SystemFilterType::TimeCreated => "TimeCreated",
            SystemFilterType::EventRecordID => "EventRecordID",
            SystemFilterType::ActivityID => "ActivityID",
            SystemFilterType::RelatedActivityID => "RelatedActivityID",
            SystemFilterType::ProcessID => "ProcessID",
            SystemFilterType::ThreadID => "ThreadID",
            SystemFilterType::Channel => "Channel",
            SystemFilterType::Computer => "Computer",
            SystemFilterType::UserID => "UserID",
        }
    }

    /// Every field of the closed set, in declaration order.
    pub fn all() -> (r: Vec<SystemFilterType>)
        ensures
            r@ == seq![
                SystemFilterType::Provider,
                SystemFilterType::EventID,
                SystemFilterType::Level,
                SystemFilterType::Task,
                SystemFilterType::Opcode,
                SystemFilterType::Keywords,
                SystemFilterType::TimeCreated,
                SystemFilterType::EventRecordID,
                SystemFilterType::ActivityID,
                SystemFilterType::RelatedActivityID,
                SystemFilterType::ProcessID,
                SystemFilterType::ThreadID,
                SystemFilterType::Channel,
                SystemFilterType::Computer,
                SystemFilterType::UserID,
            ],
    {
        let mut r: Vec<SystemFilterType> = Vec::new();
        r.push(SystemFilterType::Provider);
        r.push(SystemFilterType::EventID);
        r.push(SystemFilterType::Level);
        r.push(SystemFilterType::Task);
        r.push(SystemFilterType::Opcode);
        r.push(SystemFilterType::Keywords);
        r.push(SystemFilterType::TimeCreated);
        r.push(SystemFilterType::EventRecordID);
        r.push(SystemFilterType::ActivityID);
        r.push(SystemFilterType::RelatedActivityID);
        r.push(SystemFilterType::ProcessID);
        r.push(SystemFilterType::ThreadID);
        r.push(SystemFilterType::Channel);
        r.push(SystemFilterType::Computer);
        r.push(SystemFilterType::UserID);
        proof {
            assert(r@ =~= seq![
                SystemFilterType::Provider,
                SystemFilterType::EventID,
                SystemFilterType::Level,
                SystemFilterType::Task,
                SystemFilterType::Opcode,
                SystemFilterType::Keywords,
                SystemFilterType::TimeCreated,
                SystemFilterType::EventRecordID,
                SystemFilterType::ActivityID,
                SystemFilterType::RelatedActivityID,
                SystemFilterType::ProcessID,
                SystemFilterType::ThreadID,
                SystemFilterType::Channel,
                SystemFilterType::Computer,
                SystemFilterType::UserID,
            ]);
        }
        r
    }

    /// The fixed path of this field, as spliced into the compiled predicate.
    pub fn xpath_attribute(&self) -> (r: &str)
        ensures
            r@ == self.spec_xpath_attribute(),
    {
        match self {
            SystemFilterType::Provider => "Provider/@Name",
            SystemFilterType::EventID => "EventID/text()",
            SystemFilterType::Level => "Level/text()",
            SystemFilterType::Task => "Task/text()",
            SystemFilterType::Opcode => "Opcode/text()",
            SystemFilterType::Keywords => "Keywords/text()",
            SystemFilterType::TimeCreated => "TimeCreated/@SystemTime",
            SystemFilterType::EventRecordID => "EventRecordID/text()",
            SystemFilterType::ActivityID => "Correlation/@ActivityID",
            SystemFilterType::RelatedActivityID => "Correlation/@RelatedActivityID",
            SystemFilterType::ProcessID => "Execution/@ProcessID",
            SystemFilterType::ThreadID => "Execution/@ThreadID",
            SystemFilterType::Channel => "Channel/text()",
            SystemFilterType::Computer => "Computer/text()",
            SystemFilterType::UserID => "Security/@UserID",
        }
    }

    /// The element name used when this field is evaluated against a document.
    pub fn element_name(&self) -> (r: &str)
        ensures
            r@ == self.spec_element_name(),
    {
        match self {
            SystemFilterType::Provider => "Provider",
            SystemFilterType::EventID => "EventID",
            SystemFilterType::Level => "Level",
            SystemFilterType::Task => "Task",
            SystemFilterType::Opcode => "Opcode",
            SystemFilterType::Keywords => "Keywords",
            SystemFilterType::TimeCreated => "TimeCreated",
            SystemFilterType::EventRecordID => "EventRecordID",
            SystemFilterType::ActivityID => "Correlation",
            SystemFilterType::RelatedActivityID => "Correlation",
            SystemFilterType::ProcessID => "Execution",
            SystemFilterType::ThreadID => "Execution",
            SystemFilterType::Channel => "Channel",
            SystemFilterType::Computer => "Computer",
            SystemFilterType::UserID => "Security",
        }
    }

    /// The attribute name used when this field is evaluated, or `None` for
    /// a field read from the element's text content.
    pub fn attr_name(&self) -> (r: Option<&str>)
        ensures
            match r {
                Some(a) => self.spec_attr_name() == Some(a@),
                None => self.spec_attr_name() is None,
            },
    {
        match self {
            SystemFilterType::Provider => Some("Name"),
            SystemFilterType::TimeCreated => Some("SystemTime"),
            SystemFilterType::ActivityID => Some("ActivityID"),
            SystemFilterType::RelatedActivityID => Some("RelatedActivityID"),
            SystemFilterType::ProcessID => Some("ProcessID"),
            SystemFilterType::ThreadID => Some("ThreadID"),
            SystemFilterType::UserID => Some("UserID"),
            _ => None,
        }
    }
}

/// One selector on a fixed system field.
pub struct SystemFilter {
    pub filter_type: SystemFilterType,
    pub value: String,
    pub ignore_case: bool,
}

impl SystemFilter {
    /// The predicate text this selector compiles to.
    pub open spec fn spec_string(self) -> Seq<char> {
        if self.ignore_case {
            "translate(System/"@ + self.filter_type.spec_xpath_attribute()
                + ",'abcdefghijklmnopqrstuvwxyz','ABCDEFGHIJKLMNOPQRSTUVWXYZ')='"@ + upper_seq(
                self.value@,
            ) + "'"@
        } else {
            "System/"@ + self.filter_type.spec_xpath_attribute() + "='"@ + self.value@ + "'"@
        }
    }

    pub fn new(filter_type: SystemFilterType, value: String, ignore_case: bool) -> (r: Self)
        ensures
            r.filter_type == filter_type,
            r.value == value,
            r.ignore_case == ignore_case,
    {
        Self { filter_type, value, ignore_case }
    }

    /// Renders the selector as predicate text.
    pub fn to_string(&self) -> (r: String)
        ensures
            r@ == self.spec_string(),
    {
        let mut r = String::new();
        if self.ignore_case {
            r.append("translate(System/");
            r.append(self.filter_type.xpath_attribute());
            r.append(",'abcdefghijklmnopqrstuvwxyz','ABCDEFGHIJKLMNOPQRSTUVWXYZ')='");
            let u = ascii_upper(self.value.as_str());
            r.append(u.as_str());
            r.append("'");
        } else {
            r.append("System/");
            r.append(self.filter_type.xpath_attribute());
            r.append("='");
            r.append(self.value.as_str());
            r.append("'");
        }
        proof {
            assert(r@ =~= self.spec_string());
        }
        r
    }
}

/// One selector on a free-form data-section entry.
pub struct DataFilter {
    pub field_name: String,
    pub field_value: String,
    pub ignore_case: bool,
}

impl DataFilter {
    /// The predicate text this selector compiles to.
    pub open spec fn spec_string(self) -> Seq<char> {
        if self.ignore_case {
            "translate(EventData/Entry[translate(@Name,'abcdefghijklmnopqrstuvwxyz','ABCDEFGHIJKLMNOPQRSTUVWXYZ')='"@
                + upper_seq(self.field_name@)
                + "'],'abcdefghijklmnopqrstuvwxyz','ABCDEFGHIJKLMNOPQRSTUVWXYZ')='"@ + upper_seq(
                self.field_value@,
            ) + "'"@
        } else {
            "EventData/Entry[@Name='"@ + self.field_name@ + "']='"@ + self.field_value@ + "'"@
        }
    }

    pub fn new(field_name: String, field_value: String, ignore_case: bool) -> (r: Self)
        ensures
            r.field_name == field_name,
            r.field_value == field_value,
            r.ignore_case == ignore_case,
    {
        Self { field_name, field_value, ignore_case }
    }

    /// Renders the selector as predicate text.
    pub fn to_string(&self) -> (r: String)
        ensures
            r@ == self.spec_string(),
    {
        let mut r = String::new();
        if self.ignore_case {
            r.append(
                "translate(EventData/Entry[translate(@Name,'abcdefghijklmnopqrstuvwxyz','ABCDEFGHIJKLMNOPQRSTUVWXYZ')='",
            );
            let n = ascii_upper(self.field_name.as_str());
            r.append(n.as_str());
            r.append("'],'abcdefghijklmnopqrstuvwxyz','ABCDEFGHIJKLMNOPQRSTUVWXYZ')='");
            let v = ascii_upper(self.field_value.as_str());
            r.append(v.as_str());
            r.append("'");
        } else {
            r.append("EventData/Entry[@Name='");
            r.append(self.field_name.as_str());
            r.append("']='");
            r.append(self.field_value.as_str());
            r.append("'");
        }
        proof {
            assert(r@ =~= self.spec_string());
        }
        r
    }
}

/// One selector, in either section of a record.
pub enum RecordFilterSection {
    System(SystemFilter),
    EventData(DataFilter),
}

impl RecordFilterSection {
    /// The predicate text this selector compiles to.
    pub open spec fn spec_string(self) -> Seq<char> {
        match self {
            RecordFilterSection::System(s) => s.spec_string(),
            RecordFilterSection::EventData(d) => d.spec_string(),
        }
    }

    /// Renders the selector as predicate text.
    pub fn to_string(&self) -> (r: String)
        ensures
            r@ == self.spec_string(),
    {
        match self {
            RecordFilterSection::System(s) => s.to_string(),
            RecordFilterSection::EventData(d) => d.to_string(),
        }
    }
}

/// The text joining two adjacent selectors.
pub open spec fn spec_separator(use_or: bool) -> Seq<char> {
    if use_or {
        " or "@
    } else {
        " and "@
    }
}

/// The first `k` selectors rendered and joined with the separator.
pub open spec fn spec_joined(ss: Seq<RecordFilterSection>, use_or: bool, k: int) -> Seq<char>
    decreases k,
{
    if k <= 0 || k > ss.len() {
        Seq::empty()
    } else if k == 1 {
        ss[0].spec_string()
    } else {
        spec_joined(ss, use_or, k - 1) + spec_separator(use_or) + ss[k - 1].spec_string()
    }
}

/// The whole compiled predicate: the joined selectors wrapped as a
/// predicate on the record's top-level element.
pub open spec fn spec_filter_string(ss: Seq<RecordFilterSection>, use_or: bool) -> Seq<char> {
    "//Event["@ + spec_joined(ss, use_or, ss.len() as int) + "]"@
}

/// The compiled filter: the predicate text plus the selectors it was
/// compiled from.  Immutable once built.
///
/// The predicate text is exposed for diagnostics; evaluation runs from
/// the typed selectors themselves, so a quote character inside a
/// selector value can change the diagnostic text but never what the
/// filter matches.
pub struct XPathFilter {
    pub filter: String,
    pub sections: Vec<RecordFilterSection>,
    pub use_or: bool,
}

impl XPathFilter {
    /// Compiles the selectors into one predicate string.
    pub fn new(system_filters: Vec<RecordFilterSection>, use_or: bool) -> (r: Self)
        ensures
            r.filter@ == spec_filter_string(system_filters@, use_or),
            r.sections@ == system_filters@,
            r.use_or == use_or,
    {
        let n = system_filters.len();
        let mut joined = String::new();
        let mut i: usize = 0;
        while i < n
            invariant
                n == system_filters@.len(),
                i <= n,
                joined@ == spec_joined(system_filters@, use_or, i as int),
            decreases n - i,
        {
            if i > 0 {
                if use_or {
                    joined.append(" or ");
                } else {
                    joined.append(" and ");
                }
            }
            let part = system_filters[i].to_string();
            joined.append(part.as_str());
            proof {
                if i == 0 {
                    assert(joined@ =~= spec_joined(system_filters@, use_or, i + 1 as int));
                } else {
                    assert(joined@ =~= spec_joined(system_filters@, use_or, i + 1 as int));
                }
            }
            i = i + 1;
        }
        let mut filter = String::new();
        filter.append("//Event[");
        filter.append(joined.as_str());
        filter.append("]");
        proof {
            assert(filter@ =~= spec_filter_string(system_filters@, use_or));
        }
        Self { filter, sections: system_filters, use_or }
    }

    /// The compiled predicate text, exposable for diagnostics.
    pub fn filter(&self) -> (r: &str)
        ensures
            r@ == self.filter@,
    {
        self.filter.as_str()
    }
}

} // verus!
