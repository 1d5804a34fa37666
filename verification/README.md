# emergency_backup

A tool that starts an emergency backup when the user draws a rectangle on the
screen with the mouse, asks for confirmation with a horizontal stroke, and then
copies the configured folder onto the removable disk with the most free space.

- `src/` is the verified library (Verus): gesture recognition (`gesture`),
  configuration parsing (`config`, `text`), file selection and destination
  preparation (`files`), disk choice (`disks`) and backup naming (`naming`).
- `app/` is the program around it: mouse polling threads, file-system walks and
  copies, disk queries, the confirmation window, CPU-usage logging and `main`.
- `tests/` exercises the library on concrete values.
