# rostr

An office-attendance planner: employees with a number of office days per week (some of them
fixed), mentors and mentees, and a monthly schedule that gives each employee their office
days while keeping the week balanced.

The library under `src/` is written in Verus and verified:

- `types`, `employee`, `mentorship`, `schedule`, `history` — the data model and its checks;
- `generator`, `engine` — the day combinations and the schedule generator;
- `records`, `numbers`, `storage`, `secrets` — CSV records, number parsing, store rows and
  the sealed API key;
- `excel`, `pdf`, `llm` — the spreadsheet layout, the report page layout and the report
  stream's event lines;
- `attendance_table`, `modals`, `toasts`, `top_bar`, `ui`, `roster`, `controller` — what the
  window shows and how each user action changes it;
- `laws` — properties that span several functions.

`app/` is the window itself (iced), the SQLite store, file formats and the HTTP client; it
hands the library plain values and draws what the library decides.
