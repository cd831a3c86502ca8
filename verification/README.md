# airoha-pond OMCI library

The ONU side of ITU-T OMCI for Airoha xPON devices, verified with Verus.

- `src/omci/schema.rs`: the managed-entity classes the ONU supports, their
  attributes and actions.
- `src/omci/entity.rs`, `sorted.rs`, `bytes.rs`: instances, their attributes and
  table rows, kept in key order.
- `src/omci/mib.rs`: the MIB and the handling of OLT requests (Create, Delete,
  Get, Get Next, Set, Set Table, MIB Upload, MIB Reset, ...), with the
  enhanced-security handshake of `handshake.rs`; `autonomous.rs` builds the
  instances the ONU creates itself.
- `src/omci/provisioning.rs`: the service configuration and the GEM data paths
  the MIB describes.
- `src/omci/backend.rs`: which paths the kernel data path should carry, the
  text of its sysfs attributes, and the reconciliation state machine, with
  its Alloc-ID timeout.
- `src/omci/config.rs`: the identity and options of the `omci` configuration
  section.
- `src/omci/control.rs`: the published status, the event log and the control
  line protocol.
- `src/omci/laws.rs` and the `lemma_*` proof functions beside the code: the
  properties that span requests.
- `app/`: the socket, sysfs and thread plumbing around the library.
