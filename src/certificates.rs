use vstd::prelude::*;
use vstd::utf8::encode_utf8;
use crate::error::StoreError;
use crate::identity::{anonymous_identity, identity_code, Identity};
use crate::ids::IdAllocator;
use crate::index::OwnerIndex;
use crate::table::{
    copies, copy_strings, lemma_filter_member, lemma_filter_push, lemma_filter_step,
    lemma_lookup_at, Record, Table,
};

verus! {

#[derive(Clone, Debug)]
pub struct CertificateMetadata {
    pub completion_date: u64,
    pub total_lessons: u32,
    pub course_duration: String,
    pub course_level: String,
    pub skills_acquired: Vec<String>,
}

/// Proof that `student` completed a course. `verification_hash` is a lookup
/// code, not a cryptographic digest: anyone can compute it from the fields.
#[derive(Clone, Debug)]
pub struct Certificate {
    pub id: u64,
    pub student: Identity,
    pub course_id: u64,
    pub course_title: String,
    pub educator: Identity,
    pub educator_name: String,
    pub issue_date: u64,
    pub verification_hash: String,
    pub metadata: CertificateMetadata,
}

#[derive(Clone, Debug)]
pub struct IssueCertificatePayload {
    pub student: Identity,
    pub course_id: u64,
    pub course_title: String,
    pub educator: Identity,
    pub educator_name: String,
    pub metadata: CertificateMetadata,
}

pub open spec fn same_metadata(a: CertificateMetadata, b: CertificateMetadata) -> bool {
    &&& a.completion_date == b.completion_date
    &&& a.total_lessons == b.total_lessons
    &&& a.course_duration == b.course_duration
    &&& a.course_level == b.course_level
    &&& a.skills_acquired@ == b.skills_acquired@
}

fn copy_metadata(m: &CertificateMetadata) -> (r: CertificateMetadata)
    ensures
        same_metadata(r, *m),
{
    CertificateMetadata {
        completion_date: m.completion_date,
        total_lessons: m.total_lessons,
        course_duration: m.course_duration.clone(),
        course_level: m.course_level.clone(),
        skills_acquired: copy_strings(&m.skills_acquired),
    }
}

impl Record for Certificate {
    type Key = u64;

    open spec fn key(&self) -> u64 {
        self.id
    }

    fn has_key(&self, k: &u64) -> (r: bool) {
        self.id == *k
    }

    open spec fn same(&self, o: &Self) -> bool {
        &&& self.id == o.id
        &&& self.student == o.student
        &&& self.course_id == o.course_id
        &&& self.course_title == o.course_title
        &&& self.educator == o.educator
        &&& self.educator_name == o.educator_name
        &&& self.issue_date == o.issue_date
        &&& self.verification_hash == o.verification_hash
        &&& same_metadata(self.metadata, o.metadata)
    }

    fn duplicate(&self) -> (r: Self) {
        Certificate {
            id: self.id,
            student: self.student,
            course_id: self.course_id,
            course_title: self.course_title.clone(),
            educator: self.educator,
            educator_name: self.educator_name.clone(),
            issue_date: self.issue_date,
            verification_hash: self.verification_hash.clone(),
            metadata: copy_metadata(&self.metadata),
        }
    }
}

/// The ASCII code of hexadecimal digit `d` (lower case).
pub open spec fn hex_digit(d: nat) -> u8 {
    if d < 10 {
        (48 + d) as u8
    } else {
        (87 + d) as u8
    }
}

/// `n` in lower-case hexadecimal, without leading zeros ("0" for zero).
pub open spec fn hex_of(n: nat) -> Seq<u8>
    decreases n,
{
    if n < 16 {
        seq![hex_digit(n)]
    } else {
        hex_of(n / 16) + seq![hex_digit(n % 16)]
    }
}

/// The bytes of a certificate's lookup code: "0x" and then, in hexadecimal,
/// the certificate id, the student's folded principal, the course id and the
/// issue date.
pub open spec fn token_bytes(id: u64, student: Identity, course_id: u64, issue_date: u64) -> Seq<u8> {
    seq![48u8, 120u8] + hex_of(id as nat) + hex_of(identity_code(student) as nat) + hex_of(
        course_id as nat,
    ) + hex_of(issue_date as nat)
}

pub open spec fn all_ascii(b: Seq<u8>) -> bool {
    forall|i: int| 0 <= i < b.len() ==> b[i] < 128
}

proof fn lemma_hex_ascii(n: nat)
    ensures
        all_ascii(hex_of(n)),
    decreases n,
{
    if n >= 16 {
        lemma_hex_ascii(n / 16);
    }
}

/// Appends `n` in hexadecimal.
fn push_hex(out: &mut Vec<u8>, n: u64)
    ensures
        final(out)@ == old(out)@ + hex_of(n as nat),
    decreases n,
{
    if n >= 16 {
        push_hex(out, n / 16);
    }
    let d = n % 16;
    let c: u8 = if d < 10 {
        48 + d as u8
    } else {
        87 + d as u8
    };
    out.push(c);
    proof {
        assert(final(out)@ =~= old(out)@ + hex_of(n as nat));
    }
}

/// Relies on std's `String::from_utf8`: bytes below 128 are valid UTF-8, and
/// the string made from them has exactly those bytes.
#[verifier::external_body]
fn string_from_ascii(b: Vec<u8>) -> (r: String)
    requires
        all_ascii(b@),
    ensures
        encode_utf8(r@) == b@,
{
    String::from_utf8(b).unwrap_or_default()
}

/// The lookup code of a certificate.
pub fn generate_verification_hash(certificate_id: u64, student: &Identity, course_id: u64, issue_date: u64) -> (r:
    String)
    ensures
        encode_utf8(r@) == token_bytes(certificate_id, *student, course_id, issue_date),
{
    let mut b: Vec<u8> = Vec::new();
    b.push(48);
    b.push(120);
    push_hex(&mut b, certificate_id);
    push_hex(&mut b, student.code());
    push_hex(&mut b, course_id);
    push_hex(&mut b, issue_date);
    proof {
        assert(b@ =~= token_bytes(certificate_id, *student, course_id, issue_date));
        lemma_hex_ascii(certificate_id as nat);
        lemma_hex_ascii(identity_code(*student) as nat);
        lemma_hex_ascii(course_id as nat);
        lemma_hex_ascii(issue_date as nat);
        assert(all_ascii(b@));
    }
    string_from_ascii(b)
}

pub open spec fn held_by(student: Identity) -> spec_fn(Certificate) -> bool {
    |c: Certificate| c.student == student
}

/// The identifiers of the certificates held by `student`, in issue order.
pub open spec fn student_ids(certs: Seq<Certificate>, student: Identity) -> Seq<u64> {
    certs.filter(held_by(student)).map_values(|c: Certificate| c.id)
}

pub open spec fn for_course(course_id: u64) -> spec_fn(Certificate) -> bool {
    |c: Certificate| c.course_id == course_id
}

pub open spec fn issued_by(educator: Identity) -> spec_fn(Certificate) -> bool {
    |c: Certificate| c.educator == educator
}

/// Issued certificates.
pub struct CertificateStore {
    pub certificate_ids: IdAllocator,
    pub certificates: Table<Certificate>,
    /// For each student, the identifiers of the certificates they hold.
    pub by_student: OwnerIndex,
}

impl CertificateStore {
    pub open spec fn wf(&self) -> bool {
        &&& self.certificates.wf()
        &&& forall|i: int|
            0 <= i < self.certificates@.len() ==> (#[trigger] self.certificates@[i]).id
                <= self.certificate_ids.last
        &&& self.by_student.wf()
        &&& forall|a: Identity| #[trigger]
            self.by_student.ids_of(a) == student_ids(self.certificates@, a)
    }

    pub fn new() -> (r: CertificateStore)
        ensures
            r.wf(),
            r.certificates@.len() == 0,
            r.certificate_ids.last == 0,
    {
        let s = CertificateStore {
            certificate_ids: IdAllocator::new(),
            certificates: Table::new(),
            by_student: OwnerIndex::new(),
        };
        proof {
            reveal(Seq::filter);
            assert forall|a: Identity| #[trigger]
                s.by_student.ids_of(a) == student_ids(s.certificates@, a) by {
                assert(student_ids(s.certificates@, a) =~= Seq::<u64>::empty());
            }
        }
        s
    }

    /// Issues a certificate dated `now`, with its lookup code.
    pub fn issue_certificate(&mut self, caller: &Identity, now: u64, payload: IssueCertificatePayload) -> (r:
        Result<Certificate, StoreError>)
        requires
            old(self).wf(),
            old(self).certificate_ids.last < u64::MAX,
        ensures
            final(self).wf(),
            *caller == anonymous_identity() ==> r == Err::<Certificate, StoreError>(
                StoreError::Unauthorized,
            ) && *final(self) == *old(self),
            *caller != anonymous_identity() ==> match r {
                Ok(c) => {
                    &&& c.id == old(self).certificate_ids.last + 1
                    &&& c.student == payload.student
                    &&& c.course_id == payload.course_id
                    &&& c.course_title == payload.course_title
                    &&& c.educator == payload.educator
                    &&& c.educator_name == payload.educator_name
                    &&& c.issue_date == now
                    &&& encode_utf8(c.verification_hash@) == token_bytes(
                        c.id,
                        payload.student,
                        payload.course_id,
                        now,
                    )
                    &&& same_metadata(c.metadata, payload.metadata)
                    &&& final(self).certificate_ids.last == c.id
                    &&& final(self).certificates@ == old(self).certificates@.push(
                        final(self).certificates@.last(),
                    )
                    &&& final(self).certificates@.last().same(&c)
                },
                Err(_) => false,
            },
    {
        if caller.is_anonymous() {
            return Err(StoreError::Unauthorized);
        }
        let id = self.certificate_ids.allocate();
        let hash = generate_verification_hash(id, &payload.student, payload.course_id, now);
        let c = Certificate {
            id,
            student: payload.student,
            course_id: payload.course_id,
            course_title: payload.course_title,
            educator: payload.educator,
            educator_name: payload.educator_name,
            issue_date: now,
            verification_hash: hash,
            metadata: payload.metadata,
        };
        let ghost cs = self.certificates@;
        let stored = c.duplicate();
        let ghost kept = stored;
        self.certificates.insert(stored);
        let ghost filed = self.by_student;
        self.by_student.append(&c.student, id);
        proof {
            assert forall|a: Identity| #[trigger]
                self.by_student.ids_of(a) == student_ids(self.certificates@, a) by {
                lemma_filter_push(cs, kept, held_by(a));
                assert(filed.ids_of(a) == student_ids(cs, a));
                if a == c.student {
                    assert(student_ids(self.certificates@, a) =~= student_ids(cs, a).push(id));
                }
            }
            assert forall|i: int| 0 <= i < self.certificates@.len() implies (
            #[trigger] self.certificates@[i]).id <= self.certificate_ids.last by {
                if i < cs.len() {
                    assert(self.certificates@[i] == cs[i]);
                }
            }
        }
        Ok(c)
    }

    /// A copy of certificate `certificate_id`.
    pub fn get_certificate(&self, certificate_id: u64) -> (r: Option<Certificate>)
        requires
            self.wf(),
        ensures
            r is Some <==> self.certificates.has(certificate_id),
            r matches Some(c) ==> c.same(&self.certificates.lookup(certificate_id).unwrap()),
    {
        self.certificates.get(&certificate_id)
    }

    /// The first certificate, in issue order, whose lookup code is `verification_hash`.
    pub fn verify_certificate(&self, verification_hash: &String) -> (r: Option<Certificate>)
        requires
            self.wf(),
        ensures
            r is None <==> forall|i: int|
                0 <= i < self.certificates@.len() ==> self.certificates@[i].verification_hash@
                    != verification_hash@,
            r matches Some(c) ==> exists|i: int|
                0 <= i < self.certificates@.len() && c.same(&self.certificates@[i])
                    && self.certificates@[i].verification_hash@ == verification_hash@ && forall|j: int|
                    0 <= j < i ==> self.certificates@[j].verification_hash@ != verification_hash@,
    {
        let mut i: usize = 0;
        while i < self.certificates.len()
            invariant
                i <= self.certificates@.len(),
                forall|j: int|
                    0 <= j < i ==> self.certificates@[j].verification_hash@ != verification_hash@,
            decreases self.certificates@.len() - i,
        {
            let c = self.certificates.row(i);
            if c.verification_hash == *verification_hash {
                return Some(c.duplicate());
            }
            i = i + 1;
        }
        None
    }

    /// All certificates, in issue order.
    pub fn get_all_certificates(&self) -> (r: Vec<Certificate>)
        requires
            self.wf(),
        ensures
            copies(r@, self.certificates@),
    {
        self.certificates.scan()
    }

    /// The certificates held by `student`, in issue order, found through the
    /// student index.
    pub fn get_student_certificates(&self, student: &Identity) -> (r: Vec<Certificate>)
        requires
            self.wf(),
        ensures
            copies(r@, self.certificates@.filter(held_by(*student))),
    {
        let ids = self.by_student.lookup(student);
        let ghost h = self.certificates@.filter(held_by(*student));
        let mut out: Vec<Certificate> = Vec::new();
        let mut k: usize = 0;
        while k < ids.len()
            invariant
                self.wf(),
                h == self.certificates@.filter(held_by(*student)),
                ids@ == h.map_values(|c: Certificate| c.id),
                k <= ids@.len(),
                copies(out@, h.subrange(0, k as int)),
            decreases ids@.len() - k,
        {
            proof {
                lemma_filter_member(self.certificates@, held_by(*student), k as int);
                let j = choose|j: int|
                    0 <= j < self.certificates@.len() && self.certificates@[j] == h[k as int];
                lemma_lookup_at(self.certificates@, j);
            }
            match self.certificates.get(&ids[k]) {
                Some(c) => {
                    out.push(c);
                },
                None => {},
            }
            k = k + 1;
        }
        proof {
            assert(h.subrange(0, k as int) =~= h);
        }
        out
    }

    /// The certificates for course `course_id`, in issue order.
    pub fn get_certificates_by_course(&self, course_id: u64) -> (r: Vec<Certificate>)
        requires
            self.wf(),
        ensures
            copies(r@, self.certificates@.filter(for_course(course_id))),
    {
        let ghost p = for_course(course_id);
        let mut out: Vec<Certificate> = Vec::new();
        let mut i: usize = 0;
        while i < self.certificates.len()
            invariant
                i <= self.certificates@.len(),
                p == for_course(course_id),
                copies(out@, self.certificates@.subrange(0, i as int).filter(p)),
            decreases self.certificates@.len() - i,
        {
            let c = self.certificates.row(i);
            proof {
                lemma_filter_step(self.certificates@, i as int, p);
            }
            if c.course_id == course_id {
                out.push(c.duplicate());
            }
            i = i + 1;
        }
        proof {
            assert(self.certificates@.subrange(0, i as int) =~= self.certificates@);
        }
        out
    }

    /// The certificates issued for courses of `educator`, in issue order.
    pub fn get_certificates_by_educator(&self, educator: &Identity) -> (r: Vec<Certificate>)
        requires
            self.wf(),
        ensures
            copies(r@, self.certificates@.filter(issued_by(*educator))),
    {
        let ghost p = issued_by(*educator);
        let mut out: Vec<Certificate> = Vec::new();
        let mut i: usize = 0;
        while i < self.certificates.len()
            invariant
                i <= self.certificates@.len(),
                p == issued_by(*educator),
                copies(out@, self.certificates@.subrange(0, i as int).filter(p)),
            decreases self.certificates@.len() - i,
        {
            let c = self.certificates.row(i);
            proof {
                lemma_filter_step(self.certificates@, i as int, p);
            }
            if c.educator == *educator {
                out.push(c.duplicate());
            }
            i = i + 1;
        }
        proof {
            assert(self.certificates@.subrange(0, i as int) =~= self.certificates@);
        }
        out
    }
}

} // verus!
